//! Reading Git's output: progress messages and unified diffs.
use crate::json::{
    decimal, hash, json_chars, json_escape, json_joined, json_line, json_lines, json_number_or_null,
    line_json, push_decimal, push_json_lines, push_json_string, section_key, spec_hash,
};
use crate::model::{Commit, DiffLine, Evidence, EvidenceView, LineView, lines_view};
use crate::text::{
    append_chars, before_first, chars_of, fields_of, is_prefix, lemma_index_of, lines_of,
    parse_unsigned, slice_chars, spec_fields, spec_lines, spec_parse_unsigned, starts_with,
    string_from,
};
use vstd::utf8::{decode_utf8, encode_utf8, valid_utf8};
use vstd::prelude::*;

verus! {

/// A progress message from a Git operation: a stage of the work, or a line of
/// Git's own transfer progress.
#[derive(Clone, Copy)]
pub enum GitProgress<'a> {
    Stage(&'a str),
    Transfer(&'a str),
}

impl GitProgress<'_> {
    pub fn text(&self) -> (r: &str)
        ensures
            r@ == match self {
                GitProgress::Stage(s) => s@,
                GitProgress::Transfer(s) => s@,
            },
    {
        match self {
            GitProgress::Stage(s) => s,
            GitProgress::Transfer(s) => s,
        }
    }
}

/// `s` without every leading `c`.
pub open spec fn trim_leading(s: Seq<char>, c: char) -> Seq<char>
    decreases s.len(),
{
    if s.len() > 0 && s[0] == c {
        trim_leading(s.skip(1), c)
    } else {
        s
    }
}

/// A hunk header's start line: after the leading signs, the number before any comma.
pub open spec fn header_coordinate(field: Seq<char>, sign: char) -> Option<nat> {
    spec_parse_unsigned(before_first(trim_leading(field, sign), ','), usize::MAX as nat)
}

pub open spec fn field_or_empty(f: Seq<Seq<char>>, i: int) -> Seq<char> {
    if 0 <= i < f.len() {
        f[i]
    } else {
        seq![]
    }
}

/// The line number after `n`; line numbers wrap at the top of `usize`.
pub open spec fn next_number(n: usize) -> usize {
    if n == usize::MAX {
        0
    } else {
        (n + 1) as usize
    }
}

/// What a diff parse has gathered so far: the hunks (header and lines) and the
/// next old and new line numbers.
pub struct DiffState {
    pub hunks: Seq<(Seq<char>, Seq<LineView>)>,
    pub old: usize,
    pub new: usize,
}

/// The diff line a body line of a hunk stands for, with the line numbers after it.
pub open spec fn body_line(line: Seq<char>, old: usize, new: usize) -> (LineView, usize, usize) {
    if line.len() > 0 && line[0] == '+' {
        (
            LineView { kind: "added"@, text: line.skip(1), old_line: None, new_line: Some(new) },
            old,
            next_number(new),
        )
    } else if line.len() > 0 && line[0] == '-' {
        (
            LineView { kind: "removed"@, text: line.skip(1), old_line: Some(old), new_line: None },
            next_number(old),
            new,
        )
    } else if line.len() > 0 && line[0] == ' ' {
        (
            LineView {
                kind: "context"@,
                text: line.skip(1),
                old_line: Some(old),
                new_line: Some(new),
            },
            next_number(old),
            next_number(new),
        )
    } else {
        (LineView { kind: "meta"@, text: line, old_line: None, new_line: None }, old, new)
    }
}

/// One line of a unified diff: a header with two start lines opens a hunk; other
/// lines before the first hunk are skipped; the rest join the current hunk.
pub open spec fn diff_step(st: DiffState, line: Seq<char>) -> DiffState {
    if is_prefix("@@ "@, line) {
        let f = spec_fields(line);
        let a = header_coordinate(field_or_empty(f, 1), '-');
        let b = header_coordinate(field_or_empty(f, 2), '+');
        if a is Some && b is Some {
            DiffState {
                hunks: st.hunks.push((line, Seq::<LineView>::empty())),
                old: a->0 as usize,
                new: b->0 as usize,
            }
        } else {
            st
        }
    } else if st.hunks.len() == 0 {
        st
    } else {
        let (l, old, new) = body_line(line, st.old, st.new);
        let last = st.hunks.last();
        DiffState {
            hunks: st.hunks.update(st.hunks.len() - 1, (last.0, last.1.push(l))),
            old,
            new,
        }
    }
}

pub open spec fn diff_fold(lines: Seq<Seq<char>>) -> DiffState
    decreases lines.len(),
{
    if lines.len() == 0 {
        DiffState { hunks: seq![], old: 0, new: 0 }
    } else {
        diff_step(diff_fold(lines.drop_last()), lines.last())
    }
}

/// The hunks of a unified diff, each with its header line and its lines.
pub open spec fn spec_parse_diff(patch: Seq<char>) -> Seq<(Seq<char>, Seq<LineView>)> {
    diff_fold(spec_lines(patch)).hunks
}

pub open spec fn hunks_view(h: Seq<(String, Vec<DiffLine>)>) -> Seq<(Seq<char>, Seq<LineView>)> {
    h.map_values(|x: (String, Vec<DiffLine>)| (x.0@, lines_view(x.1@)))
}

fn trim_leading_exec(v: &[char], c: char) -> (r: Vec<char>)
    ensures
        r@ == trim_leading(v@, c),
{
    let mut i: usize = 0;
    assert(v@.skip(0) =~= v@);
    while i < v.len() && v[i] == c
        invariant
            i <= v.len(),
            trim_leading(v@, c) == trim_leading(v@.skip(i as int), c),
        decreases v.len() - i,
    {
        assert(v@.skip(i as int).skip(1) =~= v@.skip(i + 1));
        i = i + 1;
    }
    let r = slice_chars(v, i, v.len());
    proof {
        assert(r@ =~= v@.skip(i as int));
    }
    r
}

fn before_first_exec(v: &[char], c: char) -> (r: Vec<char>)
    ensures
        r@ == before_first(v@, c),
{
    let mut k: usize = 0;
    while k < v.len() && v[k] != c
        invariant
            k <= v.len(),
            forall|j: int| 0 <= j < k ==> v@[j] != c,
        decreases v.len() - k,
    {
        k = k + 1;
    }
    proof {
        lemma_index_of(v@, c, k as int);
    }
    let r = slice_chars(v, 0, k);
    proof {
        if k == v.len() {
            assert(r@ =~= v@);
        } else {
            assert(r@ =~= v@.take(k as int));
        }
    }
    r
}

fn header_coordinate_exec(fields: &Vec<Vec<char>>, i: usize, sign: char) -> (r: Option<usize>)
    ensures
        match header_coordinate(field_or_empty(fields@.map_values(|l: Vec<char>| l@), i as int), sign) {
            Some(n) => r == Some(n as usize),
            None => r is None,
        },
{
    let ghost f = fields@.map_values(|l: Vec<char>| l@);
    let empty: Vec<char> = Vec::new();
    let field: &Vec<char> = if i < fields.len() {
        &fields[i]
    } else {
        &empty
    };
    assert(field@ == field_or_empty(f, i as int)) by {
        if i >= fields.len() {
            assert(field@ =~= Seq::<char>::empty());
        }
    }
    let trimmed = trim_leading_exec(field, sign);
    let number = before_first_exec(&trimmed, ',');
    match parse_unsigned(&number, usize::MAX as u64) {
        Some(n) => Some(n as usize),
        None => None,
    }
}

fn make_line(kind: &str, text: Vec<char>, old_line: Option<usize>, new_line: Option<usize>) -> (r:
    DiffLine)
    ensures
        r@ == (LineView { kind: kind@, text: text@, old_line, new_line }),
{
    DiffLine { kind: String::from_str(kind), text: string_from(&text), old_line, new_line }
}

fn next_number_exec(n: usize) -> (r: usize)
    ensures
        r == next_number(n),
{
    if n == usize::MAX {
        0
    } else {
        n + 1
    }
}

/// Parses Git framing and coordinates only; source text is never classified.
pub fn parse_diff(patch: &str) -> (r: Vec<(String, Vec<DiffLine>)>)
    ensures
        hunks_view(r@) == spec_parse_diff(patch@),
{
    let chars = chars_of(patch);
    let lines = lines_of(&chars);
    let ghost ls = lines@.map_values(|l: Vec<char>| l@);
    let mut hunks: Vec<(String, Vec<DiffLine>)> = Vec::new();
    let mut old: usize = 0;
    let mut new: usize = 0;
    let mut i: usize = 0;
    assert(ls.take(0) =~= Seq::<Seq<char>>::empty());
    assert(hunks_view(hunks@) =~= Seq::<(Seq<char>, Seq<LineView>)>::empty());
    while i < lines.len()
        invariant
            i <= lines.len(),
            ls == lines@.map_values(|l: Vec<char>| l@),
            ls == spec_lines(patch@),
            diff_fold(ls.take(i as int)) == (DiffState { hunks: hunks_view(hunks@), old, new }),
        decreases lines.len() - i,
    {
        let line = &lines[i];
        let ghost st = DiffState { hunks: hunks_view(hunks@), old, new };
        proof {
            assert(ls.take(i + 1).drop_last() =~= ls.take(i as int));
            assert(ls.take(i + 1).last() == line@);
        }
        if starts_with(line, "@@ ") {
            let fields = fields_of(line);
            let a = header_coordinate_exec(&fields, 1, '-');
            let b = header_coordinate_exec(&fields, 2, '+');
            match (a, b) {
                (Some(a), Some(b)) => {
                    old = a;
                    new = b;
                    let header = string_from(line);
                    let empty: Vec<DiffLine> = Vec::new();
                    assert(lines_view(empty@) =~= Seq::<LineView>::empty());
                    hunks.push((header, empty));
                    proof {
                        assert(hunks_view(hunks@) =~= st.hunks.push(
                            (line@, Seq::<LineView>::empty()),
                        ));
                    }
                },
                _ => {},
            }
        } else if hunks.len() > 0 {
            let (kind, text, o, n) = if line.len() > 0 && line[0] == '+' {
                let n = new;
                new = next_number_exec(new);
                ("added", slice_chars(line, 1, line.len()), None, Some(n))
            } else if line.len() > 0 && line[0] == '-' {
                let o = old;
                old = next_number_exec(old);
                ("removed", slice_chars(line, 1, line.len()), Some(o), None)
            } else if line.len() > 0 && line[0] == ' ' {
                let o = old;
                let n = new;
                old = next_number_exec(old);
                new = next_number_exec(new);
                ("context", slice_chars(line, 1, line.len()), Some(o), Some(n))
            } else {
                ("meta", slice_chars(line, 0, line.len()), None, None)
            };
            let d = make_line(kind, text, o, n);
            let (header, mut body) = hunks.pop().unwrap();
            let ghost body_before = body@;
            body.push(d);
            hunks.push((header, body));
            proof {
                assert(line@.skip(0) =~= line@);
                let (l, o2, n2) = body_line(line@, st.old, st.new);
                assert(d@ == l);
                assert(lines_view(body@) =~= lines_view(body_before).push(l));
                assert(hunks_view(hunks@) =~= st.hunks.update(
                    st.hunks.len() - 1,
                    (st.hunks.last().0, st.hunks.last().1.push(l)),
                ));
            }
        }
        i = i + 1;
    }
    assert(ls.take(lines.len() as int) =~= ls);
    hunks
}

} // verus!

verus! {

/// The bytes of a request section's lines may reach this before a new section starts.
pub const SECTION_BUDGET: usize = 5000;

/// Lines whose JSON is longer than this are cut into overlapping parts.
pub const LONG_LINE: usize = 1800;

/// What a section builder holds: the file, the current hunk header and line
/// numbers, the lines gathered for the next section with their JSON size, how many
/// of them were carried over from the previous section, and the finished sections.
pub struct SectionsView {
    pub sha: Seq<char>,
    pub path: Seq<char>,
    pub header: Seq<char>,
    pub old: usize,
    pub new: usize,
    pub in_hunk: bool,
    pub lines: Seq<LineView>,
    pub bytes: usize,
    pub overlap: usize,
    pub items: Seq<EvidenceView>,
}

/// Every section's identifier has 24 characters.
pub open spec fn ids_sized(items: Seq<EvidenceView>) -> bool {
    forall|i: int| 0 <= i < items.len() ==> (#[trigger] items[i]).id.len() == 24
}

/// A section's identifier: the first 24 hex digits of the SHA-256 of its key.
pub open spec fn section_id(sha: Seq<char>, path: Seq<char>, index: nat, lines: Seq<LineView>) -> Seq<
    char,
> {
    spec_hash(section_key(sha, path, index, lines)).take(24)
}

pub open spec fn min_nat(a: nat, b: nat) -> nat {
    if a <= b {
        a
    } else {
        b
    }
}

/// Closes the gathered lines into a section, unless they are only the lines carried
/// over; with `overlap`, the last three lines start the next section.
pub open spec fn sv_flush(s: SectionsView, overlap: bool) -> SectionsView {
    if s.lines.len() <= s.overlap {
        s
    } else {
        let item = EvidenceView {
            id: section_id(s.sha, s.path, s.items.len(), s.lines),
            sha: s.sha,
            path: s.path,
            header: s.header,
            lines: s.lines,
            part: 0,
            parts: 0,
        };
        let keep: nat = if overlap {
            min_nat(s.lines.len(), 3)
        } else {
            0
        };
        let kept = s.lines.skip(s.lines.len() - keep);
        SectionsView {
            sha: s.sha,
            path: s.path,
            header: s.header,
            old: s.old,
            new: s.new,
            in_hunk: s.in_hunk,
            lines: kept,
            bytes: json_lines(kept).len() as usize,
            overlap: keep as usize,
            items: s.items.push(item),
        }
    }
}

/// Adds a line, first closing a section when the line would take it over budget.
pub open spec fn sv_add(s: SectionsView, l: LineView) -> SectionsView {
    let b = json_line(l).len();
    let s1 = if s.bytes + b > SECTION_BUDGET {
        sv_flush(s, true)
    } else {
        s
    };
    SectionsView {
        sha: s1.sha,
        path: s1.path,
        header: s1.header,
        old: s1.old,
        new: s1.new,
        in_hunk: s1.in_hunk,
        lines: s1.lines.push(l),
        bytes: (s1.bytes + b) as usize,
        overlap: s1.overlap,
        items: s1.items,
    }
}

/// A long text cut into parts of 300 characters, each starting 250 characters after
/// the previous one.
pub open spec fn split_parts(t: Seq<char>) -> Seq<Seq<char>>
    decreases t.len(),
{
    if t.len() == 0 {
        seq![]
    } else if t.len() <= 300 {
        seq![t]
    } else {
        seq![t.take(300)] + split_parts(t.skip(250))
    }
}

pub open spec fn with_text(l: LineView, text: Seq<char>) -> LineView {
    LineView { kind: l.kind, text, old_line: l.old_line, new_line: l.new_line }
}

pub open spec fn sv_add_parts(s: SectionsView, l: LineView, parts: Seq<Seq<char>>) -> SectionsView
    decreases parts.len(),
{
    if parts.len() == 0 {
        s
    } else {
        sv_add_parts(sv_add(s, with_text(l, parts[0])), l, parts.skip(1))
    }
}

/// Adds a line, cut into parts when its JSON is long.
pub open spec fn sv_push(s: SectionsView, l: LineView) -> SectionsView {
    if json_line(l).len() > LONG_LINE {
        sv_add_parts(s, l, split_parts(l.text))
    } else {
        sv_add(s, l)
    }
}

/// A hunk header's start line: the field without its first (ASCII) character, up to
/// any comma.
pub open spec fn hunk_coordinate(f: Seq<Seq<char>>, i: int) -> Option<nat> {
    if 0 <= i < f.len() && f[i].len() > 0 && (f[i][0] as u32) < 0x80 {
        spec_parse_unsigned(before_first(f[i].skip(1), ','), usize::MAX as nat)
    } else {
        None
    }
}

/// Takes one line of a file's diff: a hunk header closes the previous hunk's section
/// and starts a new one; lines outside hunks are metadata.
pub open spec fn sv_line(s: SectionsView, text: Seq<char>) -> SectionsView {
    if is_prefix("@@ "@, text) {
        let f = spec_fields(text);
        let o = hunk_coordinate(f, 1);
        let n = hunk_coordinate(f, 2);
        if o is Some && n is Some {
            let s1 = if s.in_hunk {
                let fl = sv_flush(s, false);
                SectionsView {
                    sha: fl.sha,
                    path: fl.path,
                    header: fl.header,
                    old: fl.old,
                    new: fl.new,
                    in_hunk: fl.in_hunk,
                    lines: seq![],
                    bytes: 0,
                    overlap: 0,
                    items: fl.items,
                }
            } else {
                s
            };
            SectionsView {
                sha: s1.sha,
                path: s1.path,
                header: text,
                old: o->0 as usize,
                new: n->0 as usize,
                in_hunk: true,
                lines: s1.lines,
                bytes: s1.bytes,
                overlap: s1.overlap,
                items: s1.items,
            }
        } else {
            s
        }
    } else {
        let (l, old, new) = if s.in_hunk {
            body_line(text, s.old, s.new)
        } else {
            (LineView { kind: "meta"@, text, old_line: None, new_line: None }, s.old, s.new)
        };
        sv_push(
            SectionsView {
                sha: s.sha,
                path: s.path,
                header: s.header,
                old,
                new,
                in_hunk: s.in_hunk,
                lines: s.lines,
                bytes: s.bytes,
                overlap: s.overlap,
                items: s.items,
            },
            l,
        )
    }
}

/// The sections, numbered from 1 with the total count.
pub open spec fn numbered(items: Seq<EvidenceView>) -> Seq<EvidenceView> {
    Seq::new(
        items.len(),
        |i: int|
            EvidenceView {
                id: items[i].id,
                sha: items[i].sha,
                path: items[i].path,
                header: items[i].header,
                lines: items[i].lines,
                part: (i + 1) as usize,
                parts: items.len() as usize,
            },
    )
}

pub open spec fn sv_finish(s: SectionsView) -> Seq<EvidenceView> {
    numbered(sv_flush(s, false).items)
}

pub open spec fn sv_new(sha: Seq<char>, path: Seq<char>) -> SectionsView {
    SectionsView {
        sha,
        path,
        header: "File metadata or binary change"@,
        old: 0,
        new: 0,
        in_hunk: false,
        lines: seq![],
        bytes: 0,
        overlap: 0,
        items: seq![],
    }
}

/// The bounds a builder keeps: every gathered line's JSON fits in 2000 bytes, at most
/// three lines are carried over, and the byte count stays small.
pub open spec fn sv_wf(s: SectionsView) -> bool {
    &&& s.overlap <= 3
    &&& s.overlap <= s.lines.len()
    &&& s.bytes <= 10000
    &&& (s.lines.len() <= s.overlap ==> s.bytes <= 6010)
    &&& forall|i: int| 0 <= i < s.lines.len() ==> json_line(#[trigger] s.lines[i]).len() <= 2000
}

pub open spec fn pow10(k: nat) -> nat
    decreases k,
{
    if k == 0 {
        1
    } else {
        10 * pow10((k - 1) as nat)
    }
}

proof fn lemma_decimal_len(n: nat, k: nat)
    requires
        k >= 1,
        n < pow10(k),
    ensures
        decimal(n).len() <= k,
    decreases n,
{
    if n >= 10 {
        assert(k >= 2) by {
            if k == 1 {
                assert(pow10(1) == 10);
            }
        }
        assert(n / 10 < pow10((k - 1) as nat)) by (nonlinear_arith)
            requires
                n < pow10(k),
                k >= 2,
                pow10(k) == 10 * pow10((k - 1) as nat),
        ;
        lemma_decimal_len(n / 10, (k - 1) as nat);
    }
}

proof fn lemma_usize_decimal(n: usize)
    ensures
        decimal(n as nat).len() <= 20,
{
    reveal_with_fuel(pow10, 21);
    assert(pow10(20) == 100000000000000000000);
    lemma_decimal_len(n as nat, 20);
}

proof fn lemma_escape_len(c: char)
    ensures
        json_escape(c).len() <= 6,
{
}

proof fn lemma_json_chars_len(s: Seq<char>)
    ensures
        json_chars(s).len() <= 6 * s.len(),
    decreases s.len(),
{
    if s.len() > 0 {
        lemma_json_chars_len(s.drop_last());
        lemma_escape_len(s.last());
    }
}

proof fn lemma_number_len(o: Option<usize>)
    ensures
        json_number_or_null(o).len() <= 20,
{
    if let Some(n) = o {
        lemma_usize_decimal(n);
    }
}

proof fn lemma_line_len(l: LineView)
    ensures
        json_line(l).len() == 43 + json_chars(l.kind).len() + json_chars(l.text).len()
            + json_number_or_null(l.old_line).len() + json_number_or_null(l.new_line).len(),
{
    reveal_strlit("{\"kind\":");
    reveal_strlit(",\"text\":");
    reveal_strlit(",\"oldLine\":");
    reveal_strlit(",\"newLine\":");
}

/// A part of at most 300 characters of a line whose kind has at most 7 characters
/// fits the per-line bound.
proof fn lemma_part_fits(l: LineView)
    requires
        l.kind.len() <= 7,
        l.text.len() <= 300,
    ensures
        json_line(l).len() <= 2000,
{
    lemma_line_len(l);
    lemma_json_chars_len(l.kind);
    lemma_json_chars_len(l.text);
    lemma_number_len(l.old_line);
    lemma_number_len(l.new_line);
}

proof fn lemma_joined_len(items: Seq<Seq<u8>>)
    requires
        forall|i: int| 0 <= i < items.len() ==> (#[trigger] items[i]).len() <= 2000,
    ensures
        json_joined(items).len() <= 2001 * items.len(),
    decreases items.len(),
{
    if items.len() > 1 {
        lemma_joined_len(items.drop_last());
    }
}

proof fn lemma_kept_len(ls: Seq<LineView>)
    requires
        ls.len() <= 3,
        forall|i: int| 0 <= i < ls.len() ==> json_line(#[trigger] ls[i]).len() <= 2000,
    ensures
        json_lines(ls).len() <= 6010,
{
    let items = ls.map_values(|l: LineView| json_line(l));
    assert forall|i: int| 0 <= i < items.len() implies (#[trigger] items[i]).len() <= 2000 by {
        assert(items[i] == json_line(ls[i]));
    }
    lemma_joined_len(items);
}

proof fn lemma_flush_wf(s: SectionsView, overlap: bool)
    requires
        sv_wf(s),
    ensures
        sv_wf(sv_flush(s, overlap)),
        sv_flush(s, overlap).lines.len() == sv_flush(s, overlap).overlap,
        sv_flush(s, overlap).bytes <= 6010,
{
    if s.lines.len() > s.overlap {
        let keep: nat = if overlap {
            min_nat(s.lines.len(), 3)
        } else {
            0
        };
        let kept = s.lines.skip(s.lines.len() - keep);
        assert forall|i: int| 0 <= i < kept.len() implies json_line(#[trigger] kept[i]).len()
            <= 2000 by {
            assert(kept[i] == s.lines[s.lines.len() - keep + i]);
        }
        lemma_kept_len(kept);
    }
}

proof fn lemma_add_wf(s: SectionsView, l: LineView)
    requires
        sv_wf(s),
        json_line(l).len() <= 2000,
    ensures
        sv_wf(sv_add(s, l)),
{
    let b = json_line(l).len();
    if s.bytes + b > SECTION_BUDGET {
        lemma_flush_wf(s, true);
    }
    let r = sv_add(s, l);
    assert forall|i: int| 0 <= i < r.lines.len() implies json_line(#[trigger] r.lines[i]).len()
        <= 2000 by {
        let s1 = if s.bytes + b > SECTION_BUDGET {
            sv_flush(s, true)
        } else {
            s
        };
        if i < s1.lines.len() {
            assert(r.lines[i] == s1.lines[i]);
        }
    }
}

proof fn lemma_add_parts_wf(s: SectionsView, l: LineView, parts: Seq<Seq<char>>)
    requires
        sv_wf(s),
        l.kind.len() <= 7,
        forall|i: int| 0 <= i < parts.len() ==> (#[trigger] parts[i]).len() <= 300,
    ensures
        sv_wf(sv_add_parts(s, l, parts)),
    decreases parts.len(),
{
    if parts.len() > 0 {
        lemma_part_fits(with_text(l, parts[0]));
        lemma_add_wf(s, with_text(l, parts[0]));
        assert forall|i: int| 0 <= i < parts.skip(1).len() implies (#[trigger] parts.skip(
            1,
        )[i]).len() <= 300 by {
            assert(parts.skip(1)[i] == parts[i + 1]);
        }
        lemma_add_parts_wf(sv_add(s, with_text(l, parts[0])), l, parts.skip(1));
    }
}

proof fn lemma_split_parts_short(t: Seq<char>)
    ensures
        forall|i: int| 0 <= i < split_parts(t).len() ==> (#[trigger] split_parts(t)[i]).len() <= 300,
    decreases t.len(),
{
    if t.len() > 300 {
        lemma_split_parts_short(t.skip(250));
        let r = split_parts(t);
        assert forall|i: int| 0 <= i < r.len() implies (#[trigger] r[i]).len() <= 300 by {
            if i > 0 {
                assert(r[i] == split_parts(t.skip(250))[i - 1]);
            }
        }
    }
}

proof fn lemma_split_step(t: Seq<char>)
    requires
        t.len() > 0,
    ensures
        split_parts(t).len() > 0,
        t.len() <= 300 ==> split_parts(t) == seq![t],
        t.len() > 300 ==> split_parts(t)[0] == t.take(300) && split_parts(t).skip(1)
            == split_parts(t.skip(250)),
{
    if t.len() > 300 {
        assert((seq![t.take(300)] + split_parts(t.skip(250))).skip(1) =~= split_parts(
            t.skip(250),
        ));
    }
}

proof fn lemma_push_wf(s: SectionsView, l: LineView)
    requires
        sv_wf(s),
        l.kind.len() <= 7,
    ensures
        sv_wf(sv_push(s, l)),
{
    if json_line(l).len() > LONG_LINE {
        lemma_split_parts_short(l.text);
        lemma_add_parts_wf(s, l, split_parts(l.text));
    } else {
        lemma_add_wf(s, l);
    }
}

proof fn lemma_line_wf(s: SectionsView, text: Seq<char>)
    requires
        sv_wf(s),
    ensures
        sv_wf(sv_line(s, text)),
{
    reveal_strlit("added");
    reveal_strlit("removed");
    reveal_strlit("context");
    reveal_strlit("meta");
    if is_prefix("@@ "@, text) {
        lemma_flush_wf(s, false);
    } else {
        let (l, old, new) = if s.in_hunk {
            body_line(text, s.old, s.new)
        } else {
            (LineView { kind: "meta"@, text, old_line: None, new_line: None }, s.old, s.new)
        };
        lemma_push_wf(
            SectionsView {
                sha: s.sha,
                path: s.path,
                header: s.header,
                old,
                new,
                in_hunk: s.in_hunk,
                lines: s.lines,
                bytes: s.bytes,
                overlap: s.overlap,
                items: s.items,
            },
            l,
        );
    }
}

} // verus!

verus! {

fn copy_lines(v: &Vec<DiffLine>, from: usize) -> (r: Vec<DiffLine>)
    requires
        from <= v.len(),
    ensures
        lines_view(r@) == lines_view(v@).skip(from as int),
{
    let mut out: Vec<DiffLine> = Vec::new();
    let mut i: usize = from;
    while i < v.len()
        invariant
            from <= i <= v.len(),
            lines_view(out@) == lines_view(v@).subrange(from as int, i as int),
        decreases v.len() - i,
    {
        let ghost before = out@;
        let d = v[i].duplicate();
        out.push(d);
        assert(lines_view(out@) =~= lines_view(before).push(v@[i as int]@));
        assert(lines_view(v@)[i as int] == v@[i as int]@);
        i = i + 1;
        assert(lines_view(out@) =~= lines_view(v@).subrange(from as int, i as int));
    }
    assert(lines_view(v@).subrange(from as int, v.len() as int) =~= lines_view(v@).skip(
        from as int,
    ));
    out
}

fn copy_string(s: &String) -> (r: String)
    ensures
        r@ == s@,
{
    s.clone()
}

pub open spec fn evidence_views(items: Seq<Evidence>) -> Seq<EvidenceView> {
    items.map_values(|e: Evidence| e@)
}

struct SectionState {
    sha: String,
    path: String,
    header: String,
    old: usize,
    new: usize,
    in_hunk: bool,
    lines: Vec<DiffLine>,
    bytes: usize,
    overlap: usize,
    items: Vec<Evidence>,
}

impl View for SectionState {
    type V = SectionsView;

    closed spec fn view(&self) -> SectionsView {
        SectionsView {
            sha: self.sha@,
            path: self.path@,
            header: self.header@,
            old: self.old,
            new: self.new,
            in_hunk: self.in_hunk,
            lines: lines_view(self.lines@),
            bytes: self.bytes,
            overlap: self.overlap,
            items: evidence_views(self.items@),
        }
    }
}

fn section_key_bytes(sha: &String, path: &String, index: usize, lines: &Vec<DiffLine>) -> (r: Vec<
    u8,
>)
    ensures
        r@ == section_key(sha@, path@, index as nat, lines_view(lines@)),
{
    let mut key: Vec<u8> = Vec::new();
    key.push(91);
    push_json_string(&mut key, sha.as_str());
    key.push(44);
    push_json_string(&mut key, path.as_str());
    key.push(44);
    push_decimal(&mut key, index as u64);
    key.push(44);
    push_json_lines(&mut key, lines);
    key.push(93);
    assert(key@ =~= section_key(sha@, path@, index as nat, lines_view(lines@)));
    key
}

fn first_chars(s: &String, n: usize) -> (r: String)
    requires
        n <= s@.len(),
    ensures
        r@ == s@.take(n as int),
{
    let c = chars_of(s.as_str());
    let p = slice_chars(&c, 0, n);
    assert(p@ =~= s@.take(n as int));
    string_from(&p)
}

impl SectionState {
    fn empty() -> (r: SectionState)
        ensures
            sv_wf(r@),
            r@ == (SectionsView {
                sha: seq![],
                path: seq![],
                header: seq![],
                old: 0,
                new: 0,
                in_hunk: false,
                lines: seq![],
                bytes: 0,
                overlap: 0,
                items: seq![],
            }),
    {
        let r = SectionState {
            sha: String::new(),
            path: String::new(),
            header: String::new(),
            old: 0,
            new: 0,
            in_hunk: false,
            lines: Vec::new(),
            bytes: 0,
            overlap: 0,
            items: Vec::new(),
        };
        assert(lines_view(r.lines@) =~= Seq::<LineView>::empty());
        assert(evidence_views(r.items@) =~= Seq::<EvidenceView>::empty());
        r
    }

    fn flush(&mut self, overlap: bool)
        requires
            ids_sized(old(self)@.items),
            sv_wf(old(self)@),
        ensures
            ids_sized(final(self)@.items),
            final(self)@ == sv_flush(old(self)@, overlap),
            sv_wf(final(self)@),
    {
        proof {
            lemma_flush_wf(self@, overlap);
        }
        if self.lines.len() <= self.overlap {
            return ;
        }
        let ghost s = self@;
        let key = section_key_bytes(&self.sha, &self.path, self.items.len(), &self.lines);
        let digest = hash(&key);
        let id = first_chars(&digest, 24);
        assert(id@.len() == 24);
        let copied = copy_lines(&self.lines, 0);
        assert(lines_view(self.lines@).skip(0) =~= lines_view(self.lines@));
        let item = Evidence {
            id,
            sha: copy_string(&self.sha),
            path: copy_string(&self.path),
            header: copy_string(&self.header),
            lines: copied,
            part: 0,
            parts: 0,
        };
        self.items.push(item);
        let n = self.lines.len();
        let keep: usize = if overlap {
            if n < 3 {
                n
            } else {
                3
            }
        } else {
            0
        };
        let kept = copy_lines(&self.lines, n - keep);
        let mut buf: Vec<u8> = Vec::new();
        push_json_lines(&mut buf, &kept);
        assert(buf@ =~= json_lines(lines_view(kept@)));
        self.lines = kept;
        self.overlap = keep;
        self.bytes = buf.len();
        assert(evidence_views(self.items@) =~= s.items.push(item@));
        assert(self@ =~= sv_flush(s, overlap));
        assert(ids_sized(self@.items)) by {
            assert forall|i: int| 0 <= i < self@.items.len() implies (
            #[trigger] self@.items[i]).id.len() == 24 by {
                if i < s.items.len() {
                    assert(self@.items[i] == s.items[i]);
                }
            }
        }
    }

    fn add(&mut self, l: DiffLine)
        requires
            ids_sized(old(self)@.items),
            sv_wf(old(self)@),
            json_line(l@).len() <= 2000,
        ensures
            ids_sized(final(self)@.items),
            final(self)@ == sv_add(old(self)@, l@),
            sv_wf(final(self)@),
    {
        proof {
            lemma_add_wf(self@, l@);
        }
        let ghost s = self@;
        let b = line_json(&l).len();
        if self.bytes + b > SECTION_BUDGET {
            self.flush(true);
        }
        proof {
            lemma_flush_wf(s, true);
        }
        self.bytes = self.bytes + b;
        let ghost before = self.lines@;
        self.lines.push(l);
        assert(lines_view(self.lines@) =~= lines_view(before).push(l@));
        assert(self@ =~= sv_add(s, l@));
    }

    fn push(&mut self, l: DiffLine)
        requires
            ids_sized(old(self)@.items),
            sv_wf(old(self)@),
            l.kind@.len() <= 7,
        ensures
            ids_sized(final(self)@.items),
            final(self)@ == sv_push(old(self)@, l@),
            sv_wf(final(self)@),
    {
        proof {
            lemma_push_wf(self@, l@);
        }
        let j = line_json(&l);
        if j.len() <= LONG_LINE {
            self.add(l);
            return ;
        }
        let ghost s = self@;
        let ghost lv = l@;
        let t = chars_of(l.text.as_str());
        let mut offset: usize = 0;
        assert(t@.skip(0) =~= t@);
        proof {
            lemma_split_parts_short(t@);
        }
        loop
            invariant_except_break
                offset <= t.len(),
                lv == l@,
                t@ == l.text@,
                lv.kind.len() <= 7,
                sv_wf(self@),
                ids_sized(self@.items),
                sv_push(s, lv) == sv_add_parts(self@, lv, split_parts(t@.skip(offset as int))),
            ensures
                self@ == sv_push(s, lv),
                sv_wf(self@),
                ids_sized(self@.items),
            decreases t.len() - offset,
        {
            if offset >= t.len() {
                proof {
                    assert(t@.skip(offset as int) =~= Seq::<char>::empty());
                }
                break;
            }
            let ghost rest = t@.skip(offset as int);
            let rest_len = t.len() - offset;
            let end: usize = if rest_len <= 300 {
                rest_len
            } else {
                300
            };
            let part = slice_chars(&t, offset, offset + end);
            let piece = DiffLine {
                kind: copy_string(&l.kind),
                text: string_from(&part),
                old_line: l.old_line,
                new_line: l.new_line,
            };
            proof {
                lemma_split_step(rest);
                assert(part@ =~= rest.take(end as int));
                if rest_len <= 300 {
                    assert(rest.take(end as int) =~= rest);
                }
                assert(piece@ == with_text(lv, split_parts(rest)[0]));
                lemma_part_fits(piece@);
            }
            let ghost before = self@;
            self.add(piece);
            proof {
                assert(sv_add_parts(before, lv, split_parts(rest)) == sv_add_parts(
                    self@,
                    lv,
                    split_parts(rest).skip(1),
                ));
            }
            if end == rest_len {
                proof {
                    assert(split_parts(rest).skip(1) =~= Seq::<Seq<char>>::empty());
                }
                break;
            }
            proof {
                assert(rest.skip(250) =~= t@.skip(offset + 250));
            }
            offset = offset + 250;
        }
    }

    fn line(&mut self, text: &str)
        requires
            ids_sized(old(self)@.items),
            sv_wf(old(self)@),
        ensures
            ids_sized(final(self)@.items),
            final(self)@ == sv_line(old(self)@, text@),
            sv_wf(final(self)@),
    {
        proof {
            lemma_line_wf(self@, text@);
            reveal_strlit("added");
            reveal_strlit("removed");
            reveal_strlit("context");
            reveal_strlit("meta");
        }
        let ghost s = self@;
        let t = chars_of(text);
        if starts_with(&t, "@@ ") {
            let f = fields_of(&t);
            let o = hunk_coordinate_exec(&f, 1);
            let n = hunk_coordinate_exec(&f, 2);
            match (o, n) {
                (Some(o), Some(n)) => {
                    if self.in_hunk {
                        self.flush(false);
                        self.lines = Vec::new();
                        self.bytes = 0;
                        self.overlap = 0;
                        assert(lines_view(self.lines@) =~= Seq::<LineView>::empty());
                    }
                    self.header = String::from_str(text);
                    self.old = o;
                    self.new = n;
                    self.in_hunk = true;
                },
                _ => {},
            }
            return ;
        }
        let (kind, body, o, n) = if self.in_hunk {
            if t.len() > 0 && t[0] == '+' {
                let n = self.new;
                self.new = next_number_exec(self.new);
                ("added", slice_chars(&t, 1, t.len()), None, Some(n))
            } else if t.len() > 0 && t[0] == '-' {
                let o = self.old;
                self.old = next_number_exec(self.old);
                ("removed", slice_chars(&t, 1, t.len()), Some(o), None)
            } else if t.len() > 0 && t[0] == ' ' {
                let o = self.old;
                let n = self.new;
                self.old = next_number_exec(self.old);
                self.new = next_number_exec(self.new);
                ("context", slice_chars(&t, 1, t.len()), Some(o), Some(n))
            } else {
                ("meta", slice_chars(&t, 0, t.len()), None, None)
            }
        } else {
            ("meta", slice_chars(&t, 0, t.len()), None, None)
        };
        let d = make_line(kind, body, o, n);
        proof {
            assert(t@.skip(0) =~= t@);
            assert(t@.subrange(0, t@.len() as int) =~= t@);
            assert(t@.subrange(1, t@.len() as int) =~= t@.skip(1));
        }
        self.push(d);
    }

    fn finish(self) -> (r: Vec<Evidence>)
        requires
            sv_wf(self@),
            ids_sized(self@.items),
        ensures
            evidence_views(r@) == sv_finish(self@),
            ids_sized(evidence_views(r@)),
    {
        let mut st = self;
        let ghost s = st@;
        st.flush(false);
        let n = st.items.len();
        let mut out: Vec<Evidence> = Vec::new();
        let mut i: usize = 0;
        while i < n
            invariant
                n == st.items.len(),
                i <= n,
                evidence_views(out@) == numbered(evidence_views(st.items@)).take(i as int),
            decreases n - i,
        {
            let e = &st.items[i];
            let lines = copy_lines(&e.lines, 0);
            assert(lines_view(e.lines@).skip(0) =~= lines_view(e.lines@));
            let item = Evidence {
                id: copy_string(&e.id),
                sha: copy_string(&e.sha),
                path: copy_string(&e.path),
                header: copy_string(&e.header),
                lines,
                part: i + 1,
                parts: n,
            };
            let ghost before = out@;
            out.push(item);
            proof {
                let views = evidence_views(st.items@);
                assert(views[i as int] == st.items@[i as int]@);
                assert(item@ == numbered(views)[i as int]);
                assert(evidence_views(out@) =~= evidence_views(before).push(item@));
            }
            i = i + 1;
            assert(evidence_views(out@) =~= numbered(evidence_views(st.items@)).take(i as int));
        }
        assert(numbered(evidence_views(st.items@)).take(n as int) =~= numbered(
            evidence_views(st.items@),
        ));
        out
    }
}

fn hunk_coordinate_exec(f: &Vec<Vec<char>>, i: usize) -> (r: Option<usize>)
    ensures
        match hunk_coordinate(f@.map_values(|l: Vec<char>| l@), i as int) {
            Some(n) => r == Some(n as usize),
            None => r is None,
        },
{
    if i >= f.len() {
        return None;
    }
    let field = &f[i];
    if field.len() == 0 || (field[0] as u32) >= 0x80 {
        return None;
    }
    let rest = slice_chars(field, 1, field.len());
    assert(rest@ =~= field@.skip(1));
    let number = before_first_exec(&rest, ',');
    match parse_unsigned(&number, usize::MAX as u64) {
        Some(n) => Some(n as usize),
        None => None,
    }
}

/// Cuts one file's diff, read line by line, into request-sized overlapping sections.
/// There is no per-file or cumulative byte cap: the budget only decides where
/// sections end.
pub struct Sections {
    state: SectionState,
}

impl View for Sections {
    type V = SectionsView;

    closed spec fn view(&self) -> SectionsView {
        self.state@
    }
}

impl Sections {
    #[verifier::type_invariant]
    closed spec fn well_formed(self) -> bool {
        sv_wf(self.state@) && ids_sized(self.state@.items)
    }

    pub fn new(sha: &str, path: &str) -> (r: Sections)
        ensures
            r@ == sv_new(sha@, path@),
    {
        proof {
            reveal_strlit("File metadata or binary change");
        }
        let state = SectionState {
            sha: String::from_str(sha),
            path: String::from_str(path),
            header: String::from_str("File metadata or binary change"),
            old: 0,
            new: 0,
            in_hunk: false,
            lines: Vec::new(),
            bytes: 0,
            overlap: 0,
            items: Vec::new(),
        };
        assert(lines_view(state.lines@) =~= Seq::<LineView>::empty());
        assert(evidence_views(state.items@) =~= Seq::<EvidenceView>::empty());
        Sections { state }
    }

    /// Takes the next line of the file's diff, without its line terminator.
    pub fn line(&mut self, text: &str)
        ensures
            final(self)@ == sv_line(old(self)@, text@),
    {
        proof {
            use_type_invariant(&*self);
        }
        let mut st = SectionState::empty();
        std::mem::swap(&mut st, &mut self.state);
        st.line(text);
        self.state = st;
    }

    /// The finished sections, numbered; each identifier has 24 characters.
    pub fn finish(self) -> (r: Vec<Evidence>)
        ensures
            evidence_views(r@) == sv_finish(self@),
            forall|i: int| 0 <= i < r@.len() ==> (#[trigger] r@[i]).id@.len() == 24,
    {
        proof {
            use_type_invariant(&self);
        }
        let r = self.state.finish();
        assert forall|i: int| 0 <= i < r@.len() implies (#[trigger] r@[i]).id@.len() == 24 by {
            assert(evidence_views(r@)[i] == r@[i]@);
        }
        r
    }
}

/// The header of commit-metadata sections.
pub open spec fn metadata_header() -> Seq<char> {
    "Commit metadata; not executable code changes"@
}

pub open spec fn sv_push_meta(s: SectionsView, lines: Seq<Seq<char>>) -> SectionsView
    decreases lines.len(),
{
    if lines.len() == 0 {
        s
    } else {
        sv_push(
            sv_push_meta(s, lines.drop_last()),
            LineView { kind: "meta"@, text: lines.last(), old_line: None, new_line: None },
        )
    }
}

/// Sections for a long commit message or path, reviewed as metadata: each line of
/// the text is a `meta` line.
pub open spec fn spec_metadata_sections(sha: Seq<char>, path: Seq<char>, text: Seq<char>) -> Seq<
    EvidenceView,
> {
    let s0 = sv_new(sha, path);
    let s1 = SectionsView {
        sha: s0.sha,
        path: s0.path,
        header: metadata_header(),
        old: s0.old,
        new: s0.new,
        in_hunk: s0.in_hunk,
        lines: s0.lines,
        bytes: s0.bytes,
        overlap: s0.overlap,
        items: s0.items,
    };
    sv_finish(sv_push_meta(s1, spec_lines(text)))
}

pub fn metadata_sections(sha: &str, path: &str, text: &str) -> (r: Vec<Evidence>)
    ensures
        evidence_views(r@) == spec_metadata_sections(sha@, path@, text@),
        forall|i: int| 0 <= i < r@.len() ==> (#[trigger] r@[i]).id@.len() == 24,
{
    proof {
        reveal_strlit("meta");
    }
    let mut st = SectionState {
        sha: String::from_str(sha),
        path: String::from_str(path),
        header: String::from_str("Commit metadata; not executable code changes"),
        old: 0,
        new: 0,
        in_hunk: false,
        lines: Vec::new(),
        bytes: 0,
        overlap: 0,
        items: Vec::new(),
    };
    let ghost s1 = st@;
    assert(lines_view(st.lines@) =~= Seq::<LineView>::empty());
    assert(evidence_views(st.items@) =~= Seq::<EvidenceView>::empty());
    let chars = chars_of(text);
    let lines = lines_of(&chars);
    let ghost ls = lines@.map_values(|l: Vec<char>| l@);
    let mut i: usize = 0;
    assert(ls.take(0) =~= Seq::<Seq<char>>::empty());
    while i < lines.len()
        invariant
            i <= lines.len(),
            ls == lines@.map_values(|l: Vec<char>| l@),
            sv_wf(st@),
            ids_sized(st@.items),
            st@ == sv_push_meta(s1, ls.take(i as int)),
        decreases lines.len() - i,
    {
        let d = make_line("meta", slice_chars(&lines[i], 0, lines[i].len()), None, None);
        proof {
            reveal_strlit("meta");
            assert(lines[i as int]@.subrange(0, lines[i as int]@.len() as int) =~= lines[i as int]@);
            assert(ls.take(i + 1).drop_last() =~= ls.take(i as int));
        }
        st.push(d);
        i = i + 1;
    }
    assert(ls.take(lines.len() as int) =~= ls);
    let r = st.finish();
    assert forall|i: int| 0 <= i < r@.len() implies (#[trigger] r@[i]).id@.len() == 24 by {
        assert(evidence_views(r@)[i] == r@[i]@);
    }
    r
}

// ---------------------------------------------------------------------------
// A commit's evidence
// ---------------------------------------------------------------------------
/// The ID of the stand-in section for a file whose diff could not be read.
pub open spec fn unavailable_id(sha: Seq<char>, file: Seq<char>) -> Seq<char> {
    spec_hash(encode_utf8(sha + ":"@ + file + ":unavailable"@)).take(24)
}

pub open spec fn unavailable_warning(file: Seq<char>, error: Seq<char>) -> Seq<char> {
    "Unavailable diff for "@ + file + ": "@ + error
}

/// The sections one file contributes: those read from its diff, or one empty
/// section whose header tells why the diff is unavailable.
pub open spec fn file_sections(sha: Seq<char>, file: Seq<char>, outcome: Result<Seq<EvidenceView>, Seq<char>>) -> Seq<
    EvidenceView,
> {
    match outcome {
        Ok(items) => items,
        Err(e) => seq![
            EvidenceView {
                id: unavailable_id(sha, file),
                sha,
                path: file,
                header: unavailable_warning(file, e),
                lines: seq![],
                part: 1,
                parts: 1,
            },
        ],
    }
}

pub open spec fn outcome_view(o: Result<Vec<Evidence>, String>) -> Result<Seq<EvidenceView>, Seq<char>> {
    match o {
        Ok(items) => Ok(items@.map_values(|e: Evidence| e@)),
        Err(e) => Err(e@),
    }
}

/// The sections of the first `files.len()` files, in order.
pub open spec fn gathered(sha: Seq<char>, files: Seq<Seq<char>>, outcomes: Seq<Result<Seq<EvidenceView>, Seq<char>>>) -> Seq<
    EvidenceView,
>
    decreases files.len(),
{
    if files.len() == 0 || outcomes.len() < files.len() {
        seq![]
    } else {
        gathered(sha, files.drop_last(), outcomes) + file_sections(
            sha,
            files.last(),
            outcomes[files.len() - 1],
        )
    }
}

/// The warnings of the files whose diff could not be read, in order.
pub open spec fn warnings_of(files: Seq<Seq<char>>, outcomes: Seq<Result<Seq<EvidenceView>, Seq<char>>>) -> Seq<
    Seq<char>,
>
    decreases files.len(),
{
    if files.len() == 0 || outcomes.len() < files.len() {
        seq![]
    } else {
        warnings_of(files.drop_last(), outcomes) + match outcomes[files.len() - 1] {
            Ok(_) => seq![],
            Err(e) => seq![unavailable_warning(files.last(), e)],
        }
    }
}

/// The section that stands for a commit without any other: no textual change,
/// either because the file policy excluded every changed file or because none changed.
pub open spec fn placeholder(c: Commit) -> EvidenceView {
    EvidenceView {
        id: spec_hash(encode_utf8(c.sha@)).take(24),
        sha: c.sha@,
        path: "(no textual changes)"@,
        header: if c.excluded_files > 0 {
            "No diff supplied: all changed files excluded by the file policy"@
        } else {
            "Empty commit: no changed files"@
        },
        lines: seq![],
        part: 1,
        parts: 1,
    }
}

/// A diff that could not be read is never passed over in silence: the file keeps a
/// section of its own whose header says why, and its warning is reported.
pub proof fn law_unreadable_diffs_are_never_silent(
    sha: Seq<char>,
    files: Seq<Seq<char>>,
    outcomes: Seq<Result<Seq<EvidenceView>, Seq<char>>>,
    k: int,
)
    requires
        outcomes.len() == files.len(),
        0 <= k < files.len(),
        outcomes[k] is Err,
    ensures
        exists|i: int|
            0 <= i < gathered(sha, files, outcomes).len() && (#[trigger] gathered(
                sha,
                files,
                outcomes,
            )[i]).path == files[k] && gathered(sha, files, outcomes)[i].header
                == unavailable_warning(files[k], outcomes[k]->Err_0),
        warnings_of(files, outcomes).contains(unavailable_warning(files[k], outcomes[k]->Err_0)),
{
    lemma_gathered_prefix(sha, files, outcomes, k);
}

proof fn lemma_gathered_prefix(
    sha: Seq<char>,
    files: Seq<Seq<char>>,
    outcomes: Seq<Result<Seq<EvidenceView>, Seq<char>>>,
    k: int,
)
    requires
        outcomes.len() >= files.len(),
        0 <= k < files.len(),
        outcomes[k] is Err,
    ensures
        exists|i: int|
            0 <= i < gathered(sha, files, outcomes).len() && (#[trigger] gathered(
                sha,
                files,
                outcomes,
            )[i]).path == files[k] && gathered(sha, files, outcomes)[i].header
                == unavailable_warning(files[k], outcomes[k]->Err_0),
        warnings_of(files, outcomes).contains(unavailable_warning(files[k], outcomes[k]->Err_0)),
    decreases files.len(),
{
    let n = files.len() - 1;
    let g = gathered(sha, files, outcomes);
    let w = warnings_of(files, outcomes);
    let g0 = gathered(sha, files.drop_last(), outcomes);
    let w0 = warnings_of(files.drop_last(), outcomes);
    if k == n {
        let extra = file_sections(sha, files.last(), outcomes[n]);
        assert(g == g0 + extra);
        assert(g[g0.len() as int] == extra[0]);
        assert(w[w.len() - 1] == unavailable_warning(files[k], outcomes[k]->Err_0));
    } else {
        lemma_gathered_prefix(sha, files.drop_last(), outcomes, k);
        let i = choose|i: int|
            0 <= i < g0.len() && (#[trigger] g0[i]).path == files.drop_last()[k] && g0[i].header
                == unavailable_warning(files.drop_last()[k], outcomes[k]->Err_0);
        assert(g == g0 + file_sections(sha, files.last(), outcomes[n]));
        assert(g[i] == g0[i]);
        let j = choose|j: int| 0 <= j < w0.len() && w0[j] == unavailable_warning(
            files.drop_last()[k],
            outcomes[k]->Err_0,
        );
        assert(w[j] == w0[j]);
    }
}

pub open spec fn strs(v: Seq<String>) -> Seq<Seq<char>> {
    v.map_values(|s: String| s@)
}

fn prefix24(s: &String) -> (r: String)
    requires
        s@.len() >= 24,
    ensures
        r@ == s@.take(24),
{
    first_chars(s, 24)
}

/// A commit's evidence from what reading each changed file's diff gave: the
/// sections read, a stand-in section and a warning for each file that failed, and
/// one placeholder section when nothing else is left.
pub fn commit_evidence(commit: &Commit, outcomes: Vec<Result<Vec<Evidence>, String>>) -> (r: (
    Vec<Evidence>,
    Vec<String>,
))
    requires
        outcomes@.len() == commit.files@.len(),
    ensures
        ({
            let ov = outcomes@.map_values(|o: Result<Vec<Evidence>, String>| outcome_view(o));
            let g = gathered(commit.sha@, strs(commit.files@), ov);
            &&& r.0@.map_values(|e: Evidence| e@) == if g.len() == 0 {
                seq![placeholder(*commit)]
            } else {
                g
            }
            &&& strs(r.1@) == warnings_of(strs(commit.files@), ov)
        }),
{
    let ghost ov = outcomes@.map_values(|o: Result<Vec<Evidence>, String>| outcome_view(o));
    let ghost fv = strs(commit.files@);
    let mut evidence: Vec<Evidence> = Vec::new();
    let mut warnings: Vec<String> = Vec::new();
    let mut rest = outcomes;
    let mut i: usize = 0;
    assert(fv.take(0) =~= Seq::<Seq<char>>::empty());
    while i < commit.files.len()
        invariant
            i <= commit.files.len(),
            rest@.len() + i == commit.files@.len(),
            ov.len() == commit.files@.len(),
            fv == strs(commit.files@),
            forall|j: int| 0 <= j < rest@.len() ==> outcome_view(#[trigger] rest@[j]) == ov[i + j],
            evidence@.map_values(|e: Evidence| e@) == gathered(commit.sha@, fv.take(i as int), ov),
            strs(warnings@) == warnings_of(fv.take(i as int), ov),
        decreases commit.files.len() - i,
    {
        let ghost ev0 = evidence@.map_values(|e: Evidence| e@);
        let ghost w0 = strs(warnings@);
        let ghost rest_before = rest@;
        let outcome = rest.remove(0);
        let file = &commit.files[i];
        proof {
            assert(fv.take(i + 1).drop_last() =~= fv.take(i as int));
            assert(fv.take(i + 1).last() == file@);
            assert(outcome_view(outcome) == ov[i as int]);
            assert forall|j: int| 0 <= j < rest@.len() implies outcome_view(#[trigger] rest@[j])
                == ov[i + 1 + j] by {
                assert(rest@[j] == rest_before[j + 1]);
            }
        }
        match outcome {
            Ok(items) => {
                let mut k: usize = 0;
                let ghost iv = items@.map_values(|e: Evidence| e@);
                let mut items = items;
                assert(iv.len() == items.len());
                while items.len() > 0
                    invariant
                        k + items@.len() == iv.len(),
                        iv.len() <= usize::MAX,
                        forall|j: int| 0 <= j < items@.len() ==> (#[trigger] items@[j])@ == iv[k + j],
                        evidence@.map_values(|e: Evidence| e@) == ev0 + iv.take(k as int),
                    decreases items@.len(),
                {
                    let ghost before = evidence@;
                    let ghost items_before = items@;
                    let e = items.remove(0);
                    evidence.push(e);
                    proof {
                        assert(evidence@.map_values(|e: Evidence| e@) =~= before.map_values(
                            |e: Evidence| e@,
                        ).push(iv[k as int]));
                        assert(iv.take(k + 1) =~= iv.take(k as int).push(iv[k as int]));
                        assert forall|j: int| 0 <= j < items@.len() implies (#[trigger] items@[j])@
                            == iv[k + 1 + j] by {
                            assert(items@[j] == items_before[j + 1]);
                        }
                    }
                    k = k + 1;
                }
                assert(iv.take(k as int) =~= iv);
            },
            Err(e) => {
                let mut key: Vec<char> = chars_of(commit.sha.as_str());
                append_chars(&mut key, ":");
                append_chars(&mut key, file.as_str());
                append_chars(&mut key, ":unavailable");
                let ks = string_from(&key);
                let digest = hash(ks.as_str().as_bytes());
                let mut warning: Vec<char> = Vec::new();
                append_chars(&mut warning, "Unavailable diff for ");
                append_chars(&mut warning, file.as_str());
                append_chars(&mut warning, ": ");
                append_chars(&mut warning, e.as_str());
                let w = string_from(&warning);
                let ghost before = evidence@;
                let ghost wbefore = warnings@;
                evidence.push(
                    Evidence {
                        id: prefix24(&digest),
                        sha: commit.sha.clone(),
                        path: file.clone(),
                        header: w.clone(),
                        lines: Vec::new(),
                        part: 1,
                        parts: 1,
                    },
                );
                warnings.push(w);
                proof {
                    assert(key@ =~= commit.sha@ + ":"@ + file@ + ":unavailable"@);
                    assert(ov[i as int] == Err::<Seq<EvidenceView>, Seq<char>>(e@));
                    assert(w@ =~= unavailable_warning(file@, e@));
                    assert(digest@ == spec_hash(encode_utf8(ks@)));
                    assert(lines_view(evidence@.last().lines@) =~= Seq::<LineView>::empty());
                    assert(evidence@.last()@ == file_sections(commit.sha@, file@, ov[i as int])[0]);
                    assert(evidence@.map_values(|e: Evidence| e@) =~= before.map_values(
                        |e: Evidence| e@,
                    ) + file_sections(commit.sha@, file@, ov[i as int]));
                    assert(strs(warnings@) =~= strs(wbefore).push(unavailable_warning(file@, e@)));
                }
            },
        }
        i = i + 1;
    }
    assert(fv.take(commit.files.len() as int) =~= fv);
    if evidence.len() == 0 {
        let digest = hash(commit.sha.as_str().as_bytes());
        let header = if commit.excluded_files > 0 {
            String::from_str("No diff supplied: all changed files excluded by the file policy")
        } else {
            String::from_str("Empty commit: no changed files")
        };
        evidence.push(
            Evidence {
                id: prefix24(&digest),
                sha: commit.sha.clone(),
                path: String::from_str("(no textual changes)"),
                header,
                lines: Vec::new(),
                part: 1,
                parts: 1,
            },
        );
        assert(digest@ == spec_hash(encode_utf8(commit.sha@)));
        assert(lines_view(evidence@[0].lines@) =~= Seq::<LineView>::empty());
        assert(evidence@[0]@ == placeholder(*commit));
        assert(evidence@.map_values(|e: Evidence| e@) =~= seq![placeholder(*commit)]);
    }
    (evidence, warnings)
}

// ---------------------------------------------------------------------------
// Transfer progress
// ---------------------------------------------------------------------------
/// Name for what `String::from_utf8_lossy` makes of bytes, a function of the bytes.
pub uninterp spec fn spec_utf8_lossy(bytes: Seq<u8>) -> Seq<char>;

/// `String::from_utf8_lossy`: the bytes decoded as UTF-8, each invalid sequence
/// replaced by U+FFFD; valid UTF-8 decodes to the text it encodes.
#[verifier::external_body]
fn utf8_lossy(bytes: &[u8]) -> (r: String)
    ensures
        r@ == spec_utf8_lossy(bytes@),
        valid_utf8(bytes@) ==> r@ == decode_utf8(bytes@),
{
    String::from_utf8_lossy(bytes).into_owned()
}

/// The longest progress line kept, in bytes.
pub open spec fn line_cap() -> nat {
    8192
}

/// Reading Git's error stream: a line ends at `\r` or `\n`, an empty line is
/// dropped, and a line keeps only its first 8192 bytes. Gives the completed lines
/// and what remains of the current one.
pub open spec fn read_progress(pending: Seq<u8>, chunk: Seq<u8>) -> (Seq<Seq<u8>>, Seq<u8>)
    decreases chunk.len(),
{
    if chunk.len() == 0 {
        (seq![], pending)
    } else {
        let (lines, p) = read_progress(pending, chunk.drop_last());
        let b = chunk.last();
        if b == 13 || b == 10 {
            if p.len() > 0 {
                (lines.push(p), seq![])
            } else {
                (lines, p)
            }
        } else if p.len() < line_cap() {
            (lines, p.push(b))
        } else {
            (lines, p)
        }
    }
}

/// A progress line as shown: decoded and trimmed.
pub open spec fn progress_text(line: Seq<u8>) -> Seq<char> {
    crate::text::spec_trim(spec_utf8_lossy(line))
}

/// The lines of Git's progress output as they arrive.
pub struct ProgressReader {
    pending: Vec<u8>,
}

impl View for ProgressReader {
    type V = Seq<u8>;

    closed spec fn view(&self) -> Seq<u8> {
        self.pending@
    }
}

impl ProgressReader {
    pub fn new() -> (r: ProgressReader)
        ensures
            r@ == Seq::<u8>::empty(),
    {
        ProgressReader { pending: Vec::new() }
    }

    /// Reads a chunk of the stream; gives the lines it completed, decoded and trimmed.
    pub fn feed(&mut self, chunk: &[u8]) -> (r: Vec<String>)
        ensures
            ({
                let (lines, rest) = read_progress(old(self)@, chunk@);
                &&& final(self)@ == rest
                &&& r@.map_values(|s: String| s@) == lines.map_values(
                    |l: Seq<u8>| progress_text(l),
                )
            }),
    {
        let mut out: Vec<String> = Vec::new();
        let ghost start = self@;
        let mut i: usize = 0;
        assert(chunk@.take(0) =~= Seq::<u8>::empty());
        while i < chunk.len()
            invariant
                i <= chunk.len(),
                ({
                    let (lines, rest) = read_progress(start, chunk@.take(i as int));
                    &&& self.pending@ == rest
                    &&& out@.map_values(|s: String| s@) == lines.map_values(
                        |l: Seq<u8>| progress_text(l),
                    )
                }),
            decreases chunk.len() - i,
        {
            proof {
                assert(chunk@.take(i + 1).drop_last() =~= chunk@.take(i as int));
            }
            let b = chunk[i];
            let ghost before = out@;
            if b == 13 || b == 10 {
                if self.pending.len() > 0 {
                    let text = utf8_lossy(self.pending.as_slice());
                    let c = chars_of(text.as_str());
                    let t = crate::text::trim(&c);
                    let line = string_from(&t);
                    out.push(line);
                    assert(out@.map_values(|s: String| s@) =~= before.map_values(
                        |s: String| s@,
                    ).push(progress_text(self.pending@)));
                    self.pending = Vec::new();
                }
            } else if self.pending.len() < 8192 {
                self.pending.push(b);
            }
            i = i + 1;
        }
        assert(chunk@.take(chunk.len() as int) =~= chunk@);
        out
    }

    /// At the end of the stream: the unfinished line, if any, decoded and trimmed.
    pub fn finish(self) -> (r: Option<String>)
        ensures
            match r {
                Some(s) => self@.len() > 0 && s@ == progress_text(self@),
                None => self@.len() == 0,
            },
    {
        if self.pending.len() > 0 {
            let text = utf8_lossy(self.pending.as_slice());
            let c = chars_of(text.as_str());
            let t = crate::text::trim(&c);
            Some(string_from(&t))
        } else {
            None
        }
    }
}

/// Why a Git operation failed: its last progress line, or advice when it printed
/// none.
pub fn failure_message(detail: &str) -> (r: String)
    ensures
        r@ == "Git operation failed. "@ + if detail@.len() == 0 {
            "Check repository access, network, and available history."@
        } else {
            detail@
        },
{
    let mut v: Vec<char> = Vec::new();
    append_chars(&mut v, "Git operation failed. ");
    if detail.unicode_len() == 0 {
        append_chars(&mut v, "Check repository access, network, and available history.");
    } else {
        append_chars(&mut v, detail);
    }
    string_from(&v)
}

/// Progress lines are never empty and never longer than 8192 bytes, however long
/// the stream runs without a line break.
pub proof fn law_progress_lines_are_bounded(pending: Seq<u8>, chunk: Seq<u8>)
    requires
        pending.len() <= line_cap(),
    ensures
        read_progress(pending, chunk).1.len() <= line_cap(),
        forall|i: int|
            0 <= i < read_progress(pending, chunk).0.len() ==> 0 < (
            #[trigger] read_progress(pending, chunk).0[i]).len() <= line_cap(),
    decreases chunk.len(),
{
    if chunk.len() > 0 {
        law_progress_lines_are_bounded(pending, chunk.drop_last());
    }
}

/// A diff line's numbers fit its kind: an added line has only a new number, a
/// removed line only an old one, a context line both, any other line neither.
pub open spec fn well_shaped(l: LineView) -> bool {
    ||| (l.kind == "added"@ && l.old_line is None && l.new_line is Some)
    ||| (l.kind == "removed"@ && l.old_line is Some && l.new_line is None)
    ||| (l.kind == "context"@ && l.old_line is Some && l.new_line is Some)
    ||| (l.kind == "meta"@ && l.old_line is None && l.new_line is None)
}

pub open spec fn hunks_well_shaped(h: Seq<(Seq<char>, Seq<LineView>)>) -> bool {
    forall|i: int|
        0 <= i < h.len() ==> is_prefix("@@ "@, (#[trigger] h[i]).0) && forall|j: int|
            0 <= j < h[i].1.len() ==> well_shaped(#[trigger] h[i].1[j])
}

proof fn lemma_fold_well_shaped(lines: Seq<Seq<char>>)
    ensures
        hunks_well_shaped(diff_fold(lines).hunks),
    decreases lines.len(),
{
    if lines.len() > 0 {
        lemma_fold_well_shaped(lines.drop_last());
        let st = diff_fold(lines.drop_last());
        let line = lines.last();
        if !is_prefix("@@ "@, line) && st.hunks.len() > 0 {
            let (l, o, n) = body_line(line, st.old, st.new);
            assert(well_shaped(l));
            let h = diff_fold(lines).hunks;
            assert forall|i: int| 0 <= i < h.len() implies is_prefix("@@ "@, (#[trigger] h[i]).0)
                && forall|j: int| 0 <= j < h[i].1.len() ==> well_shaped(#[trigger] h[i].1[j]) by {
                if i < h.len() - 1 {
                    assert(h[i] == st.hunks[i]);
                } else {
                    assert(h[i].1 == st.hunks[i].1.push(l));
                    assert forall|j: int| 0 <= j < h[i].1.len() implies well_shaped(
                        #[trigger] h[i].1[j],
                    ) by {
                        if j < st.hunks[i].1.len() {
                            assert(h[i].1[j] == st.hunks[i].1[j]);
                        }
                    }
                }
            }
        }
    }
}

/// A diff line that carries an old line number: a removed or a context line.
pub open spec fn carries_old(l: LineView) -> bool {
    l.kind == "removed"@ || l.kind == "context"@
}

/// A diff line that carries a new line number: an added or a context line.
pub open spec fn carries_new(l: LineView) -> bool {
    l.kind == "added"@ || l.kind == "context"@
}

/// How many of the lines carry an old line number.
pub open spec fn olds(ls: Seq<LineView>) -> nat
    decreases ls.len(),
{
    if ls.len() == 0 {
        0
    } else {
        olds(ls.drop_last()) + if carries_old(ls.last()) {
            1nat
        } else {
            0nat
        }
    }
}

/// How many of the lines carry a new line number.
pub open spec fn news(ls: Seq<LineView>) -> nat
    decreases ls.len(),
{
    if ls.len() == 0 {
        0
    } else {
        news(ls.drop_last()) + if carries_new(ls.last()) {
            1nat
        } else {
            0nat
        }
    }
}

/// The old start line a hunk header gives.
pub open spec fn old_start(h: Seq<char>) -> nat {
    header_coordinate(field_or_empty(spec_fields(h), 1), '-')->0
}

/// The new start line a hunk header gives.
pub open spec fn new_start(h: Seq<char>) -> nat {
    header_coordinate(field_or_empty(spec_fields(h), 2), '+')->0
}

/// A hunk's lines are numbered on from its header: the lines carrying an old number
/// carry the old start line, then the next one, and so on, and likewise for new
/// numbers, as long as the numbers stay within `usize`.
pub open spec fn numbered_on(h: Seq<char>, ls: Seq<LineView>) -> bool {
    forall|j: int|
        0 <= j < ls.len() ==> {
            &&& (carries_old(#[trigger] ls[j]) && old_start(h) + olds(ls.take(j)) <= usize::MAX
                ==> ls[j].old_line == Some((old_start(h) + olds(ls.take(j))) as usize))
            &&& (carries_new(ls[j]) && new_start(h) + news(ls.take(j)) <= usize::MAX
                ==> ls[j].new_line == Some((new_start(h) + news(ls.take(j))) as usize))
        }
}

/// What a diff parse keeps while it reads: every hunk so far is numbered on from its
/// header, and the next numbers continue the last hunk.
pub open spec fn fold_numbered(st: DiffState) -> bool {
    &&& forall|i: int| 0 <= i < st.hunks.len() ==> numbered_on((#[trigger] st.hunks[i]).0, st.hunks[i].1)
    &&& st.hunks.len() > 0 ==> {
        let last = st.hunks.last();
        &&& (old_start(last.0) + olds(last.1) <= usize::MAX ==> st.old == old_start(last.0) + olds(last.1))
        &&& (new_start(last.0) + news(last.1) <= usize::MAX ==> st.new == new_start(last.0) + news(last.1))
    }
}

proof fn lemma_body_line_carries(line: Seq<char>, old: usize, new: usize)
    ensures
        ({
            let (l, o, n) = body_line(line, old, new);
            &&& (carries_old(l) ==> l.old_line == Some(old) && o == next_number(old))
            &&& (!carries_old(l) ==> o == old)
            &&& (carries_new(l) ==> l.new_line == Some(new) && n == next_number(new))
            &&& (!carries_new(l) ==> n == new)
        }),
{
    reveal_strlit("added");
    reveal_strlit("removed");
    reveal_strlit("context");
    reveal_strlit("meta");
    assert("added"@.len() == 5 && "removed"@.len() == 7 && "context"@.len() == 7);
    assert("meta"@.len() == 4);
    assert("removed"@[0] != "context"@[0]);
    assert("added"@ != "removed"@ && "added"@ != "context"@ && "removed"@ != "context"@);
    assert("meta"@ != "removed"@ && "meta"@ != "context"@ && "meta"@ != "added"@);
}

proof fn lemma_push_numbered(h: Seq<char>, ls: Seq<LineView>, l: LineView, old: usize, new: usize)
    requires
        numbered_on(h, ls),
        old_start(h) + olds(ls) <= usize::MAX ==> old == old_start(h) + olds(ls),
        new_start(h) + news(ls) <= usize::MAX ==> new == new_start(h) + news(ls),
        carries_old(l) ==> l.old_line == Some(old),
        carries_new(l) ==> l.new_line == Some(new),
    ensures
        numbered_on(h, ls.push(l)),
{
    let p = ls.push(l);
    assert(p.drop_last() =~= ls);
    assert forall|j: int| 0 <= j < p.len() implies {
        &&& (carries_old(#[trigger] p[j]) && old_start(h) + olds(p.take(j)) <= usize::MAX
            ==> p[j].old_line == Some((old_start(h) + olds(p.take(j))) as usize))
        &&& (carries_new(p[j]) && new_start(h) + news(p.take(j)) <= usize::MAX
            ==> p[j].new_line == Some((new_start(h) + news(p.take(j))) as usize))
    } by {
        if j < ls.len() {
            assert(p.take(j) =~= ls.take(j));
            assert(p[j] == ls[j]);
        } else {
            assert(p.take(j) =~= ls);
        }
    }
}

proof fn lemma_fold_numbered(lines: Seq<Seq<char>>)
    ensures
        fold_numbered(diff_fold(lines)),
    decreases lines.len(),
{
    if lines.len() > 0 {
        lemma_fold_numbered(lines.drop_last());
        let st = diff_fold(lines.drop_last());
        let line = lines.last();
        let r = diff_fold(lines);
        if is_prefix("@@ "@, line) {
            let f = spec_fields(line);
            let a = header_coordinate(field_or_empty(f, 1), '-');
            let b = header_coordinate(field_or_empty(f, 2), '+');
            if a is Some && b is Some {
                assert forall|i: int| 0 <= i < r.hunks.len() implies numbered_on((#[trigger] r.hunks[i]).0, r.hunks[i].1) by {
                    if i < st.hunks.len() {
                        assert(r.hunks[i] == st.hunks[i]);
                    } else {
                        assert(r.hunks[i].1 =~= Seq::<LineView>::empty());
                    }
                }
                assert(olds(Seq::<LineView>::empty()) == 0);
                assert(news(Seq::<LineView>::empty()) == 0);
            }
        } else if st.hunks.len() > 0 {
            let (l, o, n) = body_line(line, st.old, st.new);
            lemma_body_line_carries(line, st.old, st.new);
            let last = st.hunks.last();
            lemma_push_numbered(last.0, last.1, l, st.old, st.new);
            let pushed = last.1.push(l);
            assert(pushed.drop_last() =~= last.1);
            assert(r.hunks.last() == (last.0, pushed));
            assert forall|i: int| 0 <= i < r.hunks.len() implies numbered_on((#[trigger] r.hunks[i]).0, r.hunks[i].1) by {
                if i < st.hunks.len() - 1 {
                    assert(r.hunks[i] == st.hunks[i]);
                }
            }
        }
    }
}

/// The kind and text a diff line takes from the patch line it was read from: a
/// line starting with `+`, `-` or a space is added, removed or context, without that
/// first character; any other line is kept whole as `meta`.
pub open spec fn read_from(x: Seq<char>, l: LineView) -> bool {
    if x.len() > 0 && x[0] == '+' {
        l.kind == "added"@ && l.text == x.skip(1)
    } else if x.len() > 0 && x[0] == '-' {
        l.kind == "removed"@ && l.text == x.skip(1)
    } else if x.len() > 0 && x[0] == ' ' {
        l.kind == "context"@ && l.text == x.skip(1)
    } else {
        l.kind == "meta"@ && l.text == x
    }
}

/// The diff line was read from a line of the patch that is no hunk header.
pub open spec fn read_from_patch(lines: Seq<Seq<char>>, l: LineView) -> bool {
    exists|k: int| 0 <= k < lines.len() && !is_prefix("@@ "@, lines[k]) && #[trigger] read_from(lines[k], l)
}

/// Every line of every hunk was read from a line of the patch that is no hunk header.
pub open spec fn hunks_read_from(h: Seq<(Seq<char>, Seq<LineView>)>, lines: Seq<Seq<char>>) -> bool {
    forall|i: int, j: int|
        0 <= i < h.len() && 0 <= j < h[i].1.len() ==> read_from_patch(lines, #[trigger] h[i].1[j])
}

proof fn lemma_fold_read_from(lines: Seq<Seq<char>>)
    ensures
        hunks_read_from(diff_fold(lines).hunks, lines),
    decreases lines.len(),
{
    if lines.len() > 0 {
        let prev = lines.drop_last();
        lemma_fold_read_from(prev);
        let st = diff_fold(prev);
        let line = lines.last();
        let r = diff_fold(lines);
        assert forall|i: int, j: int| 0 <= i < r.hunks.len() && 0 <= j < r.hunks[i].1.len()
            implies read_from_patch(lines, #[trigger] r.hunks[i].1[j]) by {
            let body = !is_prefix("@@ "@, line) && st.hunks.len() > 0;
            if body && i == st.hunks.len() - 1 && j == st.hunks[i].1.len() {
                let n = lines.len() - 1;
                assert(r.hunks[i].1[j] == body_line(line, st.old, st.new).0);
                assert(lines[n] == line);
                assert(read_from(lines[n], r.hunks[i].1[j]));
            } else {
                if body && i == st.hunks.len() - 1 {
                    assert(r.hunks[i].1 == st.hunks[i].1.push(body_line(line, st.old, st.new).0));
                }
                if i >= st.hunks.len() {
                    assert(r.hunks[i].1.len() == 0);
                }
                assert(r.hunks[i].1[j] == st.hunks[i].1[j]);
                assert(read_from_patch(prev, st.hunks[i].1[j]));
                let k = choose|k: int|
                    0 <= k < prev.len() && !is_prefix("@@ "@, prev[k]) && #[trigger] read_from(
                        prev[k],
                        st.hunks[i].1[j],
                    );
                assert(lines[k] == prev[k]);
            }
        }
    }
}

/// A parsed diff keeps to the patch: every hunk line was read from a patch line that
/// is no hunk header (a `+`, `-` or space line without that first character, any
/// other line whole as `meta`), and a hunk's line numbers count on from its header:
/// lines carrying old numbers (removed and context lines) are numbered from the
/// header's old start line, one after the other, and lines carrying new numbers
/// (added and context lines) from its new start line, as long as the numbers stay
/// within `usize`.
pub proof fn law_hunks_count_on_from_their_headers(patch: Seq<char>)
    ensures
        hunks_read_from(spec_parse_diff(patch), spec_lines(patch)),
        forall|i: int|
            0 <= i < spec_parse_diff(patch).len() ==> numbered_on(
                (#[trigger] spec_parse_diff(patch)[i]).0,
                spec_parse_diff(patch)[i].1,
            ),
{
    lemma_fold_numbered(spec_lines(patch));
    lemma_fold_read_from(spec_lines(patch));
}

/// A builder fed the given lines of a file's diff, one after another.
#[verifier::opaque]
pub open spec fn sv_feed(s: SectionsView, lines: Seq<Seq<char>>) -> SectionsView
    decreases lines.len(),
{
    if lines.len() == 0 {
        s
    } else {
        sv_line(sv_feed(s, lines.drop_last()), lines.last())
    }
}

/// Every finished section so far belongs to the builder's file and holds a line.
pub open spec fn items_sound(s: SectionsView) -> bool {
    forall|i: int|
        0 <= i < s.items.len() ==> (#[trigger] s.items[i]).sha == s.sha && s.items[i].path
            == s.path && s.items[i].lines.len() > 0
}

proof fn lemma_flush_sound(s: SectionsView, overlap: bool)
    requires
        items_sound(s),
    ensures
        items_sound(sv_flush(s, overlap)),
        sv_flush(s, overlap).sha == s.sha,
        sv_flush(s, overlap).path == s.path,
{
    let f = sv_flush(s, overlap);
    assert forall|i: int| 0 <= i < f.items.len() implies (#[trigger] f.items[i]).sha == f.sha
        && f.items[i].path == f.path && f.items[i].lines.len() > 0 by {
        if i < s.items.len() {
            assert(f.items[i] == s.items[i]);
        }
    }
}

proof fn lemma_add_sound(s: SectionsView, l: LineView)
    requires
        items_sound(s),
    ensures
        items_sound(sv_add(s, l)),
        sv_add(s, l).sha == s.sha,
        sv_add(s, l).path == s.path,
{
    lemma_flush_sound(s, true);
}

proof fn lemma_add_parts_sound(s: SectionsView, l: LineView, parts: Seq<Seq<char>>)
    requires
        items_sound(s),
    ensures
        items_sound(sv_add_parts(s, l, parts)),
        sv_add_parts(s, l, parts).sha == s.sha,
        sv_add_parts(s, l, parts).path == s.path,
    decreases parts.len(),
{
    if parts.len() > 0 {
        lemma_add_sound(s, with_text(l, parts[0]));
        lemma_add_parts_sound(sv_add(s, with_text(l, parts[0])), l, parts.skip(1));
    }
}

proof fn lemma_line_sound(s: SectionsView, text: Seq<char>)
    requires
        items_sound(s),
    ensures
        items_sound(sv_line(s, text)),
        sv_line(s, text).sha == s.sha,
        sv_line(s, text).path == s.path,
{
    if is_prefix("@@ "@, text) {
        lemma_flush_sound(s, false);
    } else {
        let (l, old, new) = if s.in_hunk {
            body_line(text, s.old, s.new)
        } else {
            (LineView { kind: "meta"@, text, old_line: None, new_line: None }, s.old, s.new)
        };
        let s1 = SectionsView {
            sha: s.sha,
            path: s.path,
            header: s.header,
            old,
            new,
            in_hunk: s.in_hunk,
            lines: s.lines,
            bytes: s.bytes,
            overlap: s.overlap,
            items: s.items,
        };
        lemma_add_sound(s1, l);
        lemma_add_parts_sound(s1, l, split_parts(l.text));
    }
}

proof fn lemma_feed_sound(s: SectionsView, lines: Seq<Seq<char>>)
    requires
        items_sound(s),
    ensures
        items_sound(sv_feed(s, lines)),
        sv_feed(s, lines).sha == s.sha,
        sv_feed(s, lines).path == s.path,
    decreases lines.len(),
{
    reveal(sv_feed);
    if lines.len() > 0 {
        lemma_feed_sound(s, lines.drop_last());
        lemma_line_sound(sv_feed(s, lines.drop_last()), lines.last());
    }
}

proof fn lemma_finish_sound(s: SectionsView)
    requires
        items_sound(s),
    ensures
        ({
            let r = sv_finish(s);
            forall|i: int|
                0 <= i < r.len() ==> (#[trigger] r[i]).sha == s.sha && r[i].path == s.path
                    && r[i].lines.len() > 0 && r[i].part == (i + 1) as usize && r[i].parts
                    == r.len() as usize
        }),
{
    lemma_flush_sound(s, false);
    let f = sv_flush(s, false);
    let r = numbered(f.items);
    assert forall|i: int| 0 <= i < r.len() implies (#[trigger] r[i]).sha == s.sha && r[i].path
        == s.path && r[i].lines.len() > 0 && r[i].part == (i + 1) as usize && r[i].parts
        == r.len() as usize by {
        assert(f.items[i].sha == f.sha);
        assert(f.items[i].path == f.path);
        assert(f.items[i].lines.len() > 0);
    }
}

/// However a file's diff runs, the sections it is cut into all belong to that file,
/// none of them is empty, and they are numbered 1, 2, ... with the total count.
pub proof fn law_sections_are_numbered_and_never_empty(
    sha: Seq<char>,
    path: Seq<char>,
    lines: Seq<Seq<char>>,
)
    ensures
        ({
            let r = sv_finish(sv_feed(sv_new(sha, path), lines));
            forall|i: int|
                0 <= i < r.len() ==> (#[trigger] r[i]).sha == sha && r[i].path == path
                    && r[i].lines.len() > 0 && r[i].part == (i + 1) as usize && r[i].parts
                    == r.len() as usize
        }),
{
    let s = sv_feed(sv_new(sha, path), lines);
    lemma_feed_sound(sv_new(sha, path), lines);
    lemma_finish_sound(s);
}

/// Some finished section holds the line.
pub open spec fn in_sections(items: Seq<EvidenceView>, l: LineView) -> bool {
    exists|i: int| 0 <= i < items.len() && #[trigger] items[i].lines.contains(l)
}

/// The builder holds the line: in a finished section, or among the lines gathered
/// for the next one.
pub open spec fn held(s: SectionsView, l: LineView) -> bool {
    in_sections(s.items, l) || s.lines.contains(l)
}

/// The lines carried over into the gathered lines are in the last finished section.
pub open spec fn carried_over(s: SectionsView) -> bool {
    &&& s.overlap <= s.lines.len()
    &&& forall|j: int|
        0 <= j < s.overlap ==> s.items.len() > 0 && s.items.last().lines.contains(
            #[trigger] s.lines[j],
        )
}

proof fn lemma_flush_holds(s: SectionsView, overlap: bool)
    requires
        carried_over(s),
    ensures
        carried_over(sv_flush(s, overlap)),
        forall|l: LineView| held(s, l) ==> #[trigger] held(sv_flush(s, overlap), l),
        s.lines.len() > s.overlap ==> forall|l: LineView| #[trigger] s.lines.contains(l)
            ==> in_sections(sv_flush(s, overlap).items, l),
{
    let f = sv_flush(s, overlap);
    if s.lines.len() > s.overlap {
        let last = f.items.len() - 1;
        assert(f.items[last].lines == s.lines);
        assert forall|l: LineView| held(s, l) implies #[trigger] held(f, l) by {
            if in_sections(s.items, l) {
                let i = choose|i: int| 0 <= i < s.items.len() && #[trigger] s.items[i].lines.contains(l);
                assert(f.items[i] == s.items[i]);
            } else {
                assert(f.items[last].lines.contains(l));
            }
        }
        assert forall|l: LineView| #[trigger] s.lines.contains(l) implies in_sections(f.items, l) by {
            assert(f.items[last].lines.contains(l));
        }
        assert forall|j: int| 0 <= j < f.overlap implies f.items.len() > 0
            && f.items.last().lines.contains(#[trigger] f.lines[j]) by {
            let k = s.lines.len() - f.overlap + j;
            assert(f.lines[j] == s.lines[k]);
            assert(f.items.last().lines[k] == f.lines[j]);
        }
    }
}

#[verifier::spinoff_prover]
proof fn lemma_add_holds(s: SectionsView, x: LineView)
    requires
        carried_over(s),
    ensures
        carried_over(sv_add(s, x)),
        forall|l: LineView| held(s, l) ==> #[trigger] held(sv_add(s, x), l),
        held(sv_add(s, x), x),
{
    let b = json_line(x).len();
    let s1 = if s.bytes + b > SECTION_BUDGET {
        sv_flush(s, true)
    } else {
        s
    };
    lemma_flush_holds(s, true);
    let a = sv_add(s, x);
    assert(a.lines == s1.lines.push(x));
    assert(a.lines[a.lines.len() - 1] == x);
    assert forall|l: LineView| held(s, l) implies #[trigger] held(a, l) by {
        assert(held(s1, l));
        if s1.lines.contains(l) {
            let j = choose|j: int| 0 <= j < s1.lines.len() && s1.lines[j] == l;
            assert(a.lines[j] == l);
        }
    }
    assert(carried_over(s1));
    assert(a.items == s1.items && a.overlap == s1.overlap);
    assert forall|j: int| 0 <= j < a.overlap implies a.items.len() > 0
        && a.items.last().lines.contains(#[trigger] a.lines[j]) by {
        assert(a.lines[j] == s1.lines[j]);
        assert(s1.items.last().lines.contains(s1.lines[j]));
    }
}

proof fn lemma_add_parts_holds(s: SectionsView, x: LineView, parts: Seq<Seq<char>>)
    requires
        carried_over(s),
    ensures
        carried_over(sv_add_parts(s, x, parts)),
        forall|l: LineView| held(s, l) ==> #[trigger] held(sv_add_parts(s, x, parts), l),
        forall|k: int| 0 <= k < parts.len() ==> held(sv_add_parts(s, x, parts), with_text(x, #[trigger] parts[k])),
    decreases parts.len(),
{
    if parts.len() > 0 {
        let s1 = sv_add(s, with_text(x, parts[0]));
        lemma_add_holds(s, with_text(x, parts[0]));
        lemma_add_parts_holds(s1, x, parts.skip(1));
        assert forall|k: int| 0 <= k < parts.len() implies held(sv_add_parts(s, x, parts), with_text(x, #[trigger] parts[k])) by {
            if k > 0 {
                assert(parts.skip(1)[k - 1] == parts[k]);
            }
        }
    }
}

/// The line a builder makes of a text that is no hunk header, and the line numbers
/// it goes on with.
pub open spec fn taken_line(s: SectionsView, text: Seq<char>) -> LineView {
    if s.in_hunk {
        body_line(text, s.old, s.new).0
    } else {
        LineView { kind: "meta"@, text, old_line: None, new_line: None }
    }
}

/// The builder keeps every line it takes: a short line whole, a long one as all of
/// its parts.
pub open spec fn keeps_line(s: SectionsView, l: LineView) -> bool {
    if json_line(l).len() > LONG_LINE {
        forall|k: int| 0 <= k < split_parts(l.text).len() ==> held(s, with_text(l, #[trigger] split_parts(l.text)[k]))
    } else {
        held(s, l)
    }
}

proof fn lemma_finish_holds(s: SectionsView, l: LineView)
    requires
        carried_over(s),
        held(s, l),
    ensures
        in_sections(sv_finish(s), l),
{
    lemma_flush_holds(s, false);
    let f = sv_flush(s, false);
    assert(in_sections(f.items, l)) by {
        if in_sections(s.items, l) {
            let i = choose|i: int| 0 <= i < s.items.len() && #[trigger] s.items[i].lines.contains(l);
            assert(f.items[i] == s.items[i]);
        } else if s.lines.len() <= s.overlap {
            let j = choose|j: int| 0 <= j < s.lines.len() && s.lines[j] == l;
            assert(s.items.last().lines.contains(s.lines[j]));
            assert(f.items[f.items.len() - 1] == s.items.last());
        }
    }
    let i = choose|i: int| 0 <= i < f.items.len() && #[trigger] f.items[i].lines.contains(l);
    assert(sv_finish(s)[i].lines == f.items[i].lines);
}

proof fn lemma_header_holds(s: SectionsView, text: Seq<char>)
    requires
        carried_over(s),
        is_prefix("@@ "@, text),
    ensures
        carried_over(sv_line(s, text)),
        forall|l: LineView| held(s, l) ==> #[trigger] held(sv_line(s, text), l),
{
    let f = spec_fields(text);
    let o = hunk_coordinate(f, 1);
    let n = hunk_coordinate(f, 2);
    let r = sv_line(s, text);
    if o is Some && n is Some && s.in_hunk {
        let fl = sv_flush(s, false);
        lemma_flush_holds(s, false);
        assert(r.items == fl.items);
        assert(r.lines.len() == 0);
        assert forall|l: LineView| held(s, l) implies #[trigger] held(r, l) by {
            if in_sections(s.items, l) {
                let i = choose|i: int| 0 <= i < s.items.len() && #[trigger] s.items[i].lines.contains(l);
                assert(fl.items[i] == s.items[i]);
            } else if s.lines.len() <= s.overlap {
                let j = choose|j: int| 0 <= j < s.lines.len() && s.lines[j] == l;
                assert(s.items.last().lines.contains(s.lines[j]));
                assert(fl.items[fl.items.len() - 1] == s.items.last());
            }
        }
    } else if o is Some && n is Some {
        assert(r.items == s.items && r.lines == s.lines && r.overlap == s.overlap);
    }
}

proof fn lemma_body_holds(s: SectionsView, text: Seq<char>)
    requires
        carried_over(s),
        !is_prefix("@@ "@, text),
    ensures
        carried_over(sv_line(s, text)),
        forall|l: LineView| held(s, l) ==> #[trigger] held(sv_line(s, text), l),
        keeps_line(sv_line(s, text), taken_line(s, text)),
{
    let x = taken_line(s, text);
    let (l2, old, new) = if s.in_hunk {
        body_line(text, s.old, s.new)
    } else {
        (LineView { kind: "meta"@, text, old_line: None, new_line: None }, s.old, s.new)
    };
    let s1 = SectionsView {
        sha: s.sha,
        path: s.path,
        header: s.header,
        old,
        new,
        in_hunk: s.in_hunk,
        lines: s.lines,
        bytes: s.bytes,
        overlap: s.overlap,
        items: s.items,
    };
    assert(l2 == x);
    assert(sv_line(s, text) == sv_push(s1, x));
    assert(carried_over(s1)) by {
        assert forall|j: int| 0 <= j < s1.overlap implies s1.items.len() > 0
            && s1.items.last().lines.contains(#[trigger] s1.lines[j]) by {
            assert(s.items.last().lines.contains(s.lines[j]));
        }
    }
    lemma_add_holds(s1, x);
    lemma_add_parts_holds(s1, x, split_parts(x.text));
    assert forall|l: LineView| held(s, l) implies #[trigger] held(s1, l) by {}
}

/// No line of a file's diff is lost, however large the diff: every line but a hunk
/// header (which heads sections instead) is kept, whole or as all the parts of a long
/// line; a line the builder holds stays held as it takes more; and when it finishes,
/// every line it holds is in one of its sections.
pub proof fn law_sections_lose_no_line(s: SectionsView, text: Seq<char>, l: LineView)
    requires
        carried_over(s),
    ensures
        carried_over(sv_new(s.sha, s.path)),
        carried_over(sv_line(s, text)),
        !is_prefix("@@ "@, text) ==> keeps_line(sv_line(s, text), taken_line(s, text)),
        held(s, l) ==> held(sv_line(s, text), l),
        held(s, l) ==> in_sections(sv_finish(s), l),
{
    if is_prefix("@@ "@, text) {
        lemma_header_holds(s, text);
    } else {
        lemma_body_holds(s, text);
    }
    if held(s, l) {
        lemma_finish_holds(s, l);
    }
}

/// The JSON size of the lines, added up.
pub open spec fn json_total(ls: Seq<LineView>) -> nat
    decreases ls.len(),
{
    if ls.len() == 0 {
        0
    } else {
        json_total(ls.drop_last()) + json_line(ls.last()).len()
    }
}

/// A hunk header that the streaming reader and the whole-diff parser read alike: both
/// find its two start lines, and the same ones. (On an odd header such as
/// `@@ --5 +1 @@` they differ: the parser drops every leading sign, the reader only the
/// first character.)
pub open spec fn headers_agree(x: Seq<char>) -> bool {
    let f = spec_fields(x);
    &&& is_prefix("@@ "@, x)
    &&& hunk_coordinate(f, 1) is Some
    &&& hunk_coordinate(f, 2) is Some
    &&& header_coordinate(field_or_empty(f, 1), '-') == hunk_coordinate(f, 1)
    &&& header_coordinate(field_or_empty(f, 2), '+') == hunk_coordinate(f, 2)
}

/// A patch of one hunk: it starts with a header both readers agree on, and no other
/// line is a hunk header.
pub open spec fn one_hunk(ls: Seq<Seq<char>>) -> bool {
    &&& ls.len() > 0
    &&& headers_agree(ls[0])
    &&& forall|k: int| 1 <= k < ls.len() ==> !is_prefix("@@ "@, #[trigger] ls[k])
}

proof fn lemma_one_hunk_fold(ls: Seq<Seq<char>>, m: int)
    requires
        one_hunk(ls),
        1 <= m <= ls.len(),
    ensures
        diff_fold(ls.take(m)).hunks.len() == 1,
        diff_fold(ls.take(m)).hunks[0].0 == ls[0],
        diff_fold(ls.take(m)).hunks[0].1.len() == m - 1,
        m < ls.len() ==> ({
            let fd = diff_fold(ls.take(m));
            diff_fold(ls.take(m + 1)).hunks[0].1 == fd.hunks[0].1.push(
                body_line(ls[m], fd.old, fd.new).0,
            ) && diff_fold(ls.take(m + 1)).old == body_line(ls[m], fd.old, fd.new).1
                && diff_fold(ls.take(m + 1)).new == body_line(ls[m], fd.old, fd.new).2
        }),
    decreases m,
{
    if m == 1 {
        assert(ls.take(1).drop_last() =~= Seq::<Seq<char>>::empty());
        assert(ls.take(1).last() == ls[0]);
        let e = diff_fold(Seq::<Seq<char>>::empty());
        assert(e.hunks.len() == 0);
        assert(diff_fold(ls.take(1)) == diff_step(e, ls[0]));
        let f = spec_fields(ls[0]);
        assert(header_coordinate(field_or_empty(f, 1), '-') is Some);
        assert(header_coordinate(field_or_empty(f, 2), '+') is Some);
    } else {
        lemma_one_hunk_fold(ls, m - 1);
        assert(ls.take(m).drop_last() =~= ls.take(m - 1));
        assert(ls.take(m).last() == ls[m - 1]);
        assert(!is_prefix("@@ "@, ls[m - 1]));
        assert(diff_fold(ls.take(m)) == diff_step(diff_fold(ls.take(m - 1)), ls[m - 1]));
    }
    if m < ls.len() {
        assert(ls.take(m + 1).drop_last() =~= ls.take(m));
        assert(ls.take(m + 1).last() == ls[m]);
        assert(!is_prefix("@@ "@, ls[m]));
        assert(diff_fold(ls.take(m + 1)) == diff_step(diff_fold(ls.take(m)), ls[m]));
    }
}

proof fn lemma_one_hunk_prefix(ls: Seq<Seq<char>>, k: int, m: int)
    requires
        one_hunk(ls),
        1 <= k <= m <= ls.len(),
    ensures
        diff_fold(ls.take(m)).hunks[0].1.take(k - 1) == diff_fold(ls.take(k)).hunks[0].1,
    decreases m - k,
{
    lemma_one_hunk_fold(ls, k);
    lemma_one_hunk_fold(ls, m);
    if k < m {
        lemma_one_hunk_prefix(ls, k + 1, m);
        lemma_one_hunk_fold(ls, k + 1);
        let big = diff_fold(ls.take(m)).hunks[0].1;
        assert(big.take(k) == diff_fold(ls.take(k + 1)).hunks[0].1);
        assert(big.take(k - 1) =~= big.take(k).take(k - 1));
        assert(diff_fold(ls.take(k + 1)).hunks[0].1.take(k - 1) =~= diff_fold(ls.take(k)).hunks[0].1);
    } else {
        assert(diff_fold(ls.take(m)).hunks[0].1.take(k - 1) =~= diff_fold(ls.take(m)).hunks[0].1);
    }
}

proof fn lemma_total_prefix(ls: Seq<LineView>, k: int)
    requires
        0 <= k <= ls.len(),
    ensures
        json_total(ls.take(k)) <= json_total(ls),
    decreases ls.len(),
{
    if k < ls.len() {
        lemma_total_prefix(ls.drop_last(), k);
        assert(ls.drop_last().take(k) =~= ls.take(k));
    } else {
        assert(ls.take(k) =~= ls);
    }
}

proof fn lemma_stream_step(prev: SectionsView, x: Seq<char>)
    requires
        prev.in_hunk,
        prev.items.len() == 0,
        prev.overlap == 0,
        prev.bytes == json_total(prev.lines),
        !is_prefix("@@ "@, x),
        json_line(body_line(x, prev.old, prev.new).0).len() <= LONG_LINE,
        json_total(prev.lines) + json_line(body_line(x, prev.old, prev.new).0).len()
            <= SECTION_BUDGET,
    ensures
        ({
            let (l, o, n) = body_line(x, prev.old, prev.new);
            let r = sv_line(prev, x);
            &&& r.header == prev.header
            &&& r.in_hunk
            &&& r.old == o
            &&& r.new == n
            &&& r.lines == prev.lines.push(l)
            &&& r.items.len() == 0
            &&& r.overlap == 0
            &&& r.bytes == json_total(r.lines)
        }),
{
    let (l, o, n) = body_line(x, prev.old, prev.new);
    let s1 = SectionsView {
        sha: prev.sha,
        path: prev.path,
        header: prev.header,
        old: o,
        new: n,
        in_hunk: prev.in_hunk,
        lines: prev.lines,
        bytes: prev.bytes,
        overlap: prev.overlap,
        items: prev.items,
    };
    assert(sv_line(prev, x) == sv_push(s1, l));
    assert(sv_push(s1, l) == sv_add(s1, l));
    assert(prev.lines.push(l).drop_last() =~= prev.lines);
}

proof fn lemma_stream_start(sha: Seq<char>, path: Seq<char>, x: Seq<char>)
    requires
        headers_agree(x),
    ensures
        ({
            let f = spec_fields(x);
            let r = sv_line(sv_new(sha, path), x);
            &&& r.header == x
            &&& r.in_hunk
            &&& r.old == header_coordinate(field_or_empty(f, 1), '-')->0 as usize
            &&& r.new == header_coordinate(field_or_empty(f, 2), '+')->0 as usize
            &&& r.lines.len() == 0
            &&& r.items.len() == 0
            &&& r.overlap == 0
            &&& r.bytes == 0
        }),
{
}

proof fn lemma_streamed_prefix(sha: Seq<char>, path: Seq<char>, ls: Seq<Seq<char>>, m: int)
    requires
        one_hunk(ls),
        1 <= m <= ls.len(),
        forall|j: int|
            0 <= j < diff_fold(ls).hunks[0].1.len() ==> json_line(
                #[trigger] diff_fold(ls).hunks[0].1[j],
            ).len() <= LONG_LINE,
        json_total(diff_fold(ls).hunks[0].1) <= SECTION_BUDGET,
    ensures
        ({
            let sv = sv_feed(sv_new(sha, path), ls.take(m));
            let fd = diff_fold(ls.take(m));
            &&& sv.header == ls[0]
            &&& sv.in_hunk
            &&& sv.old == fd.old
            &&& sv.new == fd.new
            &&& sv.lines == fd.hunks[0].1
            &&& sv.items.len() == 0
            &&& sv.overlap == 0
            &&& sv.bytes == json_total(sv.lines)
        }),
    decreases m,
{
    reveal(sv_feed);
    lemma_one_hunk_fold(ls, m);
    if m == 1 {
        assert(ls.take(1).drop_last() =~= Seq::<Seq<char>>::empty());
        assert(ls.take(1).last() == ls[0]);
        assert(sv_feed(sv_new(sha, path), ls.take(1)) == sv_line(
            sv_feed(sv_new(sha, path), Seq::<Seq<char>>::empty()),
            ls[0],
        ));
        assert(sv_feed(sv_new(sha, path), Seq::<Seq<char>>::empty()) == sv_new(sha, path));
        lemma_stream_start(sha, path, ls[0]);
        let e = diff_fold(Seq::<Seq<char>>::empty());
        assert(diff_fold(ls.take(1)) == diff_step(e, ls[0]));
        assert(json_total(Seq::<LineView>::empty()) == 0);
        assert(diff_fold(ls.take(1)).hunks[0].1 =~= Seq::<LineView>::empty());
    } else {
        lemma_streamed_prefix(sha, path, ls, m - 1);
        lemma_one_hunk_fold(ls, m - 1);
        let prev = sv_feed(sv_new(sha, path), ls.take(m - 1));
        let fd = diff_fold(ls.take(m - 1));
        let x = ls[m - 1];
        assert(ls.take(m).drop_last() =~= ls.take(m - 1));
        assert(ls.take(m).last() == x);
        assert(sv_feed(sv_new(sha, path), ls.take(m)) == sv_line(prev, x));
        assert(!is_prefix("@@ "@, x));
        let l = body_line(x, prev.old, prev.new).0;
        let full = diff_fold(ls).hunks[0].1;
        lemma_one_hunk_fold(ls, ls.len() as int);
        assert(ls.take(ls.len() as int) =~= ls);
        lemma_one_hunk_prefix(ls, m, ls.len() as int);
        let now = diff_fold(ls.take(m)).hunks[0].1;
        assert(now == fd.hunks[0].1.push(l));
        assert(full.take(m - 1) == now);
        assert(full[m - 2] == now[m - 2]);
        assert(json_line(l).len() <= LONG_LINE);
        lemma_total_prefix(full, m - 1);
        assert(now.drop_last() =~= fd.hunks[0].1);
        assert(json_total(now) == json_total(fd.hunks[0].1) + json_line(l).len());
        lemma_stream_step(prev, x);
    }
}

/// Reading a file's diff line by line gives what parsing it whole gives: for a
/// patch of one hunk whose header both readers agree on, whose lines are short and
/// which fits one section, the streaming reader ends with the same header and the same
/// lines as `parse_diff`'s hunk, and no section closed yet.
pub proof fn law_streamed_hunk_agrees_with_parse_diff(sha: Seq<char>, path: Seq<char>, patch: Seq<char>)
    requires
        one_hunk(spec_lines(patch)),
        forall|j: int|
            0 <= j < spec_parse_diff(patch)[0].1.len() ==> json_line(
                #[trigger] spec_parse_diff(patch)[0].1[j],
            ).len() <= LONG_LINE,
        json_total(spec_parse_diff(patch)[0].1) <= SECTION_BUDGET,
    ensures
        spec_parse_diff(patch).len() == 1,
        sv_feed(sv_new(sha, path), spec_lines(patch)).header == spec_parse_diff(patch)[0].0,
        sv_feed(sv_new(sha, path), spec_lines(patch)).lines == spec_parse_diff(patch)[0].1,
        sv_feed(sv_new(sha, path), spec_lines(patch)).items.len() == 0,
{
    let ls = spec_lines(patch);
    lemma_one_hunk_fold(ls, ls.len() as int);
    assert(ls.take(ls.len() as int) =~= ls);
    lemma_streamed_prefix(sha, path, ls, ls.len() as int);
}

/// Every hunk of a parsed diff starts at an `@@ ` header, and every line's numbers
/// fit its kind.
pub proof fn law_diff_lines_are_well_shaped(patch: Seq<char>)
    ensures
        hunks_well_shaped(spec_parse_diff(patch)),
{
    lemma_fold_well_shaped(spec_lines(patch));
}

} // verus!
