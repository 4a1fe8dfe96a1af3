//! The terminal screens of a scan: its summary, a saved scan's entry in the list,
//! the diff of a result's evidence and the table of results.
use crate::export::{cwe_list, cwe_names, first_chars, first_line, shown_date, take_chars};
use crate::model::{
    Category, EvidenceView, LineView, ResultRecord, Scan, Taxonomy, classification, cwes_of,
    has_score, lemma_cwes_found, probability_of, score_lookup,
};
use crate::order::{is_stable_descending, stable_descending};
use crate::score::{float_ge, ge, order_key, total_key};
use crate::terminal::{
    Terminal, append_rows, clean_chars, copy_chars, extend, family_color, rows_view, spec_clean,
    spec_family_color, spec_text_width, spec_wrap, text_width, wrap,
};
use crate::text::{
    append_chars, chars_of, decimal_chars, fields_of, join, join_chars, lines_of, push_decimal_chars,
    spec_fields, spec_lines, spec_to_uppercase, str_eq, string_from, to_uppercase, trim_end,
    trim_end_chars,
};
use vstd::prelude::*;

verus! {

pub open spec fn spaces(n: nat) -> Seq<char> {
    Seq::new(n, |i: int| ' ')
}

/// Groups of lines, one after another.
pub open spec fn concat_rows(groups: Seq<Seq<Seq<char>>>) -> Seq<Seq<char>>
    decreases groups.len(),
{
    if groups.len() == 0 {
        seq![]
    } else {
        concat_rows(groups.drop_last()) + groups.last()
    }
}

pub open spec fn dec(n: nat) -> Seq<char> {
    decimal_chars(n)
}

fn push_spaces(out: &mut Vec<char>, n: usize)
    ensures
        final(out)@ == old(out)@ + spaces(n as nat),
{
    let mut i: usize = 0;
    while i < n
        invariant
            i <= n,
            out@ == old(out)@ + spaces(i as nat),
        decreases n - i,
    {
        out.push(' ');
        i = i + 1;
        assert(out@ =~= old(out)@ + spaces(i as nat));
    }
}

fn push_line(out: &mut Vec<Vec<char>>, line: Vec<char>)
    ensures
        rows_view(final(out)@) == rows_view(old(out)@).push(line@),
{
    let ghost before = out@;
    out.push(line);
    assert(rows_view(out@) =~= rows_view(before).push(line@));
}

impl Terminal {
    /// The rows of a text, each behind `prefix` and inked.
    pub open spec fn spec_prefixed(&self, text: Seq<char>, prefix: Seq<char>, color: u8, bold: bool) -> Seq<
        Seq<char>,
    > {
        self.spec_rows(text).map_values(|row: Seq<char>| prefix + self.spec_ink(row, color, bold))
    }

    fn prefixed(&self, out: &mut Vec<Vec<char>>, text: &[char], prefix: &str, color: u8, bold: bool)
        ensures
            rows_view(final(out)@) == rows_view(old(out)@) + self.spec_prefixed(
                text@,
                prefix@,
                color,
                bold,
            ),
    {
        let rows = self.rows(text);
        let ghost start = rows_view(out@);
        let ghost want = self.spec_prefixed(text@, prefix@, color, bold);
        let mut i: usize = 0;
        while i < rows.len()
            invariant
                i <= rows.len(),
                rows_view(rows@) == self.spec_rows(text@),
                want == self.spec_prefixed(text@, prefix@, color, bold),
                rows_view(out@) == start + want.take(i as int),
            decreases rows.len() - i,
        {
            let mut line: Vec<char> = Vec::new();
            append_chars(&mut line, prefix);
            let styled = self.ink_chars(&rows[i], color, bold);
            extend(&mut line, &styled);
            proof {
                assert(rows_view(rows@)[i as int] == rows@[i as int]@);
            }
            push_line(out, line);
            assert(want.take(i + 1) =~= want.take(i as int).push(want[i as int]));
            i = i + 1;
        }
        assert(want.take(rows.len() as int) =~= want);
    }

    // -----------------------------------------------------------------------
    // A saved scan
    // -----------------------------------------------------------------------
    pub open spec fn spec_saved(&self, scan: Scan) -> Seq<char> {
        let s = scan.summary;
        let meta = take_chars(s.started@, 10) + " · "@ + s.status@ + " · "@ + dec(
            s.progress.classified as nat,
        ) + " classified"@;
        join(
            seq!["  "@ + self.spec_ink(s.id@, 141, true)] + self.spec_prefixed(
                meta,
                "    "@,
                244,
                false,
            ) + self.spec_prefixed(s.options.source@, "    "@, 252, false) + seq![seq![]],
            "\n"@,
        )
    }

    /// A saved scan in the list: its ID, then its day, status and count, then its
    /// source.
    pub fn saved(&self, scan: &Scan) -> (r: String)
        ensures
            r@ == self.spec_saved(*scan),
    {
        let s = &scan.summary;
        let mut out: Vec<Vec<char>> = Vec::new();
        let mut first: Vec<char> = Vec::new();
        append_chars(&mut first, "  ");
        let id = chars_of(s.id.as_str());
        let a = self.ink_chars(&id, 141, true);
        extend(&mut first, &a);
        push_line(&mut out, first);
        let mut meta = first_chars(s.started.as_str(), 10);
        append_chars(&mut meta, " · ");
        append_chars(&mut meta, s.status.as_str());
        append_chars(&mut meta, " · ");
        push_decimal_chars(&mut meta, s.progress.classified as u64);
        append_chars(&mut meta, " classified");
        self.prefixed(&mut out, &meta, "    ", 244, false);
        let source = chars_of(s.options.source.as_str());
        self.prefixed(&mut out, &source, "    ", 252, false);
        push_line(&mut out, Vec::new());
        assert(rows_view(out@) =~= seq!["  "@ + self.spec_ink(s.id@, 141, true)]
            + self.spec_prefixed(meta@, "    "@, 244, false) + self.spec_prefixed(
            s.options.source@,
            "    "@,
            252,
            false,
        ) + seq![seq![]]);
        let joined = join_chars(&out, "\n");
        string_from(&joined)
    }

    // -----------------------------------------------------------------------
    // Summary
    // -----------------------------------------------------------------------
    /// The usage line: calls and cache hits, tokens when reported, and the cost.
    pub open spec fn spec_usage(scan: Scan, cost_label: Seq<char>) -> Seq<char> {
        let p = scan.summary.progress;
        dec(p.calls as nat) + " calls · "@ + dec(p.cached as nat) + " cached"@ + (if p.input_tokens > 0
            || p.output_tokens > 0 {
            " · "@ + dec(p.input_tokens as nat) + " in / "@ + dec(p.output_tokens as nat)
                + " out tokens"@
        } else {
            seq![]
        }) + (if p.calls == 0 {
            " · est. $0.000000"@
        } else {
            " · "@ + cost_label
        })
    }

    pub open spec fn spec_counts(scan: Scan) -> Seq<char> {
        let p = scan.summary.progress;
        dec(p.classified as nat) + " classified · "@ + dec(p.security as nat) + " security · "@
            + dec(p.bugs as nat) + " bugs · "@ + dec(p.metadata_only as nat)
            + " metadata-only · "@ + dec(p.failed as nat) + " failed"@
    }

    /// The end-of-scan summary. `cost_label` is how the scan's cost estimate reads
    /// (`cost unavailable` without one); it is shown once Jev was called.
    pub open spec fn spec_summary(
        &self,
        scan: Scan,
        shown: usize,
        filtered: bool,
        cost_label: Seq<char>,
    ) -> Seq<char> {
        let p = scan.summary.progress;
        let color: u8 = if scan.summary.status@ == "completed"@ {
            78
        } else {
            179
        };
        join(
            seq!["\n  "@ + self.spec_ink(p.phase@, color, true)] + self.spec_prefixed(
                Self::spec_counts(scan),
                "  "@,
                244,
                false,
            ) + (if p.calls > 0 || p.cached > 0 {
                self.spec_prefixed(Self::spec_usage(scan, cost_label), "  "@, 244, false)
            } else {
                seq![]
            }) + (if filtered {
                seq![
                    "  "@ + self.spec_ink(
                        dec(shown as nat) + " matching / "@ + dec(p.classified as nat)
                            + " classified"@,
                        141,
                        false,
                    ),
                ]
            } else {
                seq![]
            }) + seq![
                "  "@ + self.spec_rule("scan"@) + " "@ + self.spec_ink(scan.summary.id@, 244, false)
                    + "\n"@,
            ],
            "\n"@,
        )
    }

    pub fn summary(&self, scan: &Scan, shown: usize, filtered: bool, cost_label: &str) -> (r:
        String)
        ensures
            r@ == self.spec_summary(*scan, shown, filtered, cost_label@),
    {
        let p = &scan.summary.progress;
        let color: u8 = if str_eq(scan.summary.status.as_str(), "completed") {
            78
        } else {
            179
        };
        let mut out: Vec<Vec<char>> = Vec::new();
        let mut first: Vec<char> = Vec::new();
        append_chars(&mut first, "\n  ");
        let phase = chars_of(p.phase.as_str());
        let a = self.ink_chars(&phase, color, true);
        extend(&mut first, &a);
        push_line(&mut out, first);
        let mut counts: Vec<char> = Vec::new();
        push_decimal_chars(&mut counts, p.classified as u64);
        append_chars(&mut counts, " classified · ");
        push_decimal_chars(&mut counts, p.security as u64);
        append_chars(&mut counts, " security · ");
        push_decimal_chars(&mut counts, p.bugs as u64);
        append_chars(&mut counts, " bugs · ");
        push_decimal_chars(&mut counts, p.metadata_only as u64);
        append_chars(&mut counts, " metadata-only · ");
        push_decimal_chars(&mut counts, p.failed as u64);
        append_chars(&mut counts, " failed");
        assert(counts@ =~= Self::spec_counts(*scan));
        let ghost o1 = rows_view(out@);
        self.prefixed(&mut out, &counts, "  ", 244, false);
        let ghost o2 = rows_view(out@);
        if p.calls > 0 || p.cached > 0 {
            let mut usage: Vec<char> = Vec::new();
            push_decimal_chars(&mut usage, p.calls as u64);
            append_chars(&mut usage, " calls · ");
            push_decimal_chars(&mut usage, p.cached as u64);
            append_chars(&mut usage, " cached");
            let ghost u0 = usage@;
            if p.input_tokens > 0 || p.output_tokens > 0 {
                append_chars(&mut usage, " · ");
                push_decimal_chars(&mut usage, p.input_tokens);
                append_chars(&mut usage, " in / ");
                push_decimal_chars(&mut usage, p.output_tokens);
                append_chars(&mut usage, " out tokens");
            }
            let ghost u1 = usage@;
            if p.calls == 0 {
                append_chars(&mut usage, " · est. $0.000000");
            } else {
                append_chars(&mut usage, " · ");
                append_chars(&mut usage, cost_label);
            }
            assert(usage@ =~= Self::spec_usage(*scan, cost_label@));
            self.prefixed(&mut out, &usage, "  ", 244, false);
        }
        let ghost o3 = rows_view(out@);
        if filtered {
            let mut m: Vec<char> = Vec::new();
            push_decimal_chars(&mut m, shown as u64);
            append_chars(&mut m, " matching / ");
            push_decimal_chars(&mut m, p.classified as u64);
            append_chars(&mut m, " classified");
            let mut line: Vec<char> = Vec::new();
            append_chars(&mut line, "  ");
            let b = self.ink_chars(&m, 141, false);
            extend(&mut line, &b);
            push_line(&mut out, line);
        }
        let ghost o4 = rows_view(out@);
        let mut last: Vec<char> = Vec::new();
        append_chars(&mut last, "  ");
        let rule = self.rule("scan");
        extend(&mut last, &rule);
        append_chars(&mut last, " ");
        let id = chars_of(scan.summary.id.as_str());
        let c = self.ink_chars(&id, 244, false);
        extend(&mut last, &c);
        append_chars(&mut last, "\n");
        push_line(&mut out, last);
        assert(rows_view(out@) =~= seq!["\n  "@ + self.spec_ink(p.phase@, color, true)]
            + self.spec_prefixed(Self::spec_counts(*scan), "  "@, 244, false) + (if p.calls > 0
            || p.cached > 0 {
            self.spec_prefixed(Self::spec_usage(*scan, cost_label@), "  "@, 244, false)
        } else {
            seq![]
        }) + (if filtered {
            seq![
                "  "@ + self.spec_ink(
                    dec(shown as nat) + " matching / "@ + dec(p.classified as nat) + " classified"@,
                    141,
                    false,
                ),
            ]
        } else {
            seq![]
        }) + seq![
            "  "@ + self.spec_rule("scan"@) + " "@ + self.spec_ink(scan.summary.id@, 244, false)
                + "\n"@,
        ]);
        let joined = join_chars(&out, "\n");
        string_from(&joined)
    }

    // -----------------------------------------------------------------------
    // Diff
    // -----------------------------------------------------------------------
    /// The width left for a diff line's text beside its coordinates: the terminal
    /// width less the coordinates and two columns of margin, at least one.
    pub open spec fn diff_width(&self, coords_width: nat) -> nat {
        if self.width >= coords_width + 3 {
            (self.width - coords_width - 2) as nat
        } else {
            1
        }
    }

    /// A diff line's rows: the coordinates before the first, as much blank space
    /// before the others, all in the line kind's colour.
    pub open spec fn spec_diff_line(&self, l: LineView) -> Seq<Seq<char>> {
        let c = coords(l);
        let cw = spec_text_width(c) as nat;
        let rows = spec_wrap(spec_clean(l.text), self.diff_width(cw));
        Seq::new(
            rows.len(),
            |i: int|
                "  "@ + self.spec_ink(
                    (if i == 0 {
                        c
                    } else {
                        spaces(cw)
                    }) + rows[i],
                    line_color(l.kind),
                    false,
                ),
        )
    }

    /// A section's lines: its heading (path and header), then its diff lines.
    pub open spec fn spec_section(&self, e: EvidenceView) -> Seq<Seq<char>> {
        seq![self.spec_heading(e.path, e.header)] + concat_rows(
            e.lines.map_values(|l: LineView| self.spec_diff_line(l)),
        )
    }

    /// The evidence of a result, section by section.
    pub open spec fn spec_diff(&self, r: ResultRecord) -> Seq<char> {
        join(
            concat_rows(r.evidence@.map_values(|s: crate::model::Segment| self.spec_section(s.evidence@))),
            "\n"@,
        )
    }

    fn diff_line(&self, out: &mut Vec<Vec<char>>, l: &crate::model::DiffLine)
        ensures
            rows_view(final(out)@) == rows_view(old(out)@) + self.spec_diff_line(l@),
    {
        let c = coords_exec(l);
        let cs = string_from(&c);
        let cw = text_width(cs.as_str());
        let width = if cw < self.width && self.width - cw >= 3 {
            self.width - cw - 2
        } else {
            1
        };
        let text = chars_of(l.text.as_str());
        let cleaned = clean_chars(&text);
        let rows = wrap(&cleaned, width);
        let color = line_color_exec(l.kind.as_str());
        let ghost start = rows_view(out@);
        let ghost want = self.spec_diff_line(l@);
        let mut i: usize = 0;
        while i < rows.len()
            invariant
                i <= rows.len(),
                rows_view(rows@) == spec_wrap(spec_clean(l@.text), self.diff_width(cw as nat)),
                cw == spec_text_width(coords(l@)),
                c@ == coords(l@),
                color == line_color(l@.kind),
                want == self.spec_diff_line(l@),
                rows_view(out@) == start + want.take(i as int),
            decreases rows.len() - i,
        {
            let mut text: Vec<char> = Vec::new();
            if i == 0 {
                extend(&mut text, &c);
            } else {
                push_spaces(&mut text, cw);
            }
            extend(&mut text, &rows[i]);
            let mut line: Vec<char> = Vec::new();
            append_chars(&mut line, "  ");
            let styled = self.ink_chars(&text, color, false);
            extend(&mut line, &styled);
            proof {
                assert(rows_view(rows@)[i as int] == rows@[i as int]@);
                assert(line@ =~= want[i as int]);
            }
            push_line(out, line);
            assert(want.take(i + 1) =~= want.take(i as int).push(want[i as int]));
            i = i + 1;
        }
        assert(want.take(rows.len() as int) =~= want);
    }

    /// The evidence of a result as coloured diff lines under a heading per section.
    pub fn diff(&self, r: &ResultRecord) -> (s: String)
        ensures
            s@ == self.spec_diff(*r),
    {
        let ghost groups = r.evidence@.map_values(
            |s: crate::model::Segment| self.spec_section(s.evidence@),
        );
        let mut out: Vec<Vec<char>> = Vec::new();
        let mut k: usize = 0;
        assert(groups.take(0) =~= Seq::<Seq<Seq<char>>>::empty());
        while k < r.evidence.len()
            invariant
                k <= r.evidence.len(),
                groups == r.evidence@.map_values(
                    |s: crate::model::Segment| self.spec_section(s.evidence@),
                ),
                rows_view(out@) == concat_rows(groups.take(k as int)),
            decreases r.evidence.len() - k,
        {
            let e = &r.evidence[k].evidence;
            let ghost before = rows_view(out@);
            let h = self.heading(e.path.as_str(), e.header.as_str());
            push_line(&mut out, chars_of(h.as_str()));
            let ghost lines_groups = e@.lines.map_values(|l: LineView| self.spec_diff_line(l));
            let mut j: usize = 0;
            let ghost mid = rows_view(out@);
            assert(lines_groups.take(0) =~= Seq::<Seq<Seq<char>>>::empty());
            while j < e.lines.len()
                invariant
                    j <= e.lines.len(),
                    lines_groups == e@.lines.map_values(|l: LineView| self.spec_diff_line(l)),
                    e@.lines.len() == e.lines@.len(),
                    rows_view(out@) == mid + concat_rows(lines_groups.take(j as int)),
                decreases e.lines.len() - j,
            {
                self.diff_line(&mut out, &e.lines[j]);
                proof {
                    assert(e@.lines[j as int] == e.lines@[j as int]@);
                    assert(lines_groups.take(j + 1).drop_last() =~= lines_groups.take(j as int));
                }
                j = j + 1;
            }
            assert(lines_groups.take(e.lines.len() as int) =~= lines_groups);
            proof {
                assert(groups.take(k + 1).drop_last() =~= groups.take(k as int));
                assert(groups[k as int] == self.spec_section(e@));
                assert(rows_view(out@) =~= before + self.spec_section(e@));
            }
            k = k + 1;
        }
        assert(groups.take(r.evidence.len() as int) =~= groups);
        let joined = join_chars(&out, "\n");
        string_from(&joined)
    }
}

/// `s` right-aligned in `n` columns.
pub open spec fn pad_left(s: Seq<char>, n: nat) -> Seq<char> {
    if s.len() >= n {
        s
    } else {
        spaces((n - s.len()) as nat) + s
    }
}

/// A line number; nothing for a line that has none.
pub open spec fn coord_text(o: Option<usize>) -> Seq<char> {
    match o {
        Some(n) => dec(n as nat),
        None => seq![],
    }
}

pub open spec fn line_sign(kind: Seq<char>) -> Seq<char> {
    if kind == "added"@ {
        "+"@
    } else if kind == "removed"@ {
        "−"@
    } else {
        " "@
    }
}

pub open spec fn line_color(kind: Seq<char>) -> u8 {
    if kind == "added"@ {
        78
    } else if kind == "removed"@ {
        204
    } else {
        244
    }
}

/// Old and new line numbers, each in five columns, then the line's sign.
pub open spec fn coords(l: LineView) -> Seq<char> {
    pad_left(coord_text(l.old_line), 5) + " "@ + pad_left(coord_text(l.new_line), 5) + " "@
        + line_sign(l.kind) + " "@
}

fn push_padded(out: &mut Vec<char>, o: Option<usize>)
    ensures
        final(out)@ == old(out)@ + pad_left(coord_text(o), 5),
{
    let mut digits: Vec<char> = Vec::new();
    match o {
        Some(n) => push_decimal_chars(&mut digits, n as u64),
        None => {},
    }
    assert(digits@ =~= coord_text(o));
    if digits.len() < 5 {
        push_spaces(out, 5 - digits.len());
    }
    extend(out, &digits);
    assert(out@ =~= old(out)@ + pad_left(coord_text(o), 5));
}

fn line_color_exec(kind: &str) -> (r: u8)
    ensures
        r == line_color(kind@),
{
    if str_eq(kind, "added") {
        78
    } else if str_eq(kind, "removed") {
        204
    } else {
        244
    }
}

fn coords_exec(l: &crate::model::DiffLine) -> (r: Vec<char>)
    ensures
        r@ == coords(l@),
{
    let mut out: Vec<char> = Vec::new();
    push_padded(&mut out, l.old_line);
    append_chars(&mut out, " ");
    push_padded(&mut out, l.new_line);
    append_chars(&mut out, " ");
    if str_eq(l.kind.as_str(), "added") {
        append_chars(&mut out, "+");
    } else if str_eq(l.kind.as_str(), "removed") {
        append_chars(&mut out, "−");
    } else {
        append_chars(&mut out, " ");
    }
    append_chars(&mut out, " ");
    assert(out@ =~= coords(l@));
    out
}

// ---------------------------------------------------------------------------
// Table
// ---------------------------------------------------------------------------
/// Rows of words: a new row starts when the next piece would not fit beside the row
/// so far, a space between pieces on one row.
pub open spec fn words_step(st: (Seq<Seq<char>>, Seq<char>), part: Seq<char>, width: nat) -> (
    Seq<Seq<char>>,
    Seq<char>,
) {
    let (rows, row) = st;
    let (rows1, row1) = if row.len() > 0 && spec_text_width(row) + 1 + spec_text_width(part)
        > width {
        (rows.push(row), seq![])
    } else {
        (rows, row)
    };
    (rows1, (if row1.len() > 0 {
        row1.push(' ')
    } else {
        row1
    }) + part)
}

pub open spec fn words_fold(parts: Seq<Seq<char>>, width: nat) -> (Seq<Seq<char>>, Seq<char>)
    decreases parts.len(),
{
    if parts.len() == 0 {
        (seq![], seq![])
    } else {
        words_step(words_fold(parts.drop_last(), width), parts.last(), width)
    }
}

/// The pieces of the words: each word wrapped to the width on its own.
pub open spec fn word_parts(words: Seq<Seq<char>>, width: nat) -> Seq<Seq<char>>
    decreases words.len(),
{
    if words.len() == 0 {
        seq![]
    } else {
        word_parts(words.drop_last(), width) + spec_wrap(words.last(), width)
    }
}

/// The words of a text wrapped into rows of at most `width` columns where they fit;
/// a word longer than a row is cut. Empty text gives one empty row.
pub open spec fn spec_wrap_words(text: Seq<char>, width: nat) -> Seq<Seq<char>> {
    let (rows, row) = words_fold(word_parts(spec_fields(text), width), width);
    if row.len() > 0 || rows.len() == 0 {
        rows.push(row)
    } else {
        rows
    }
}

fn wrap_words(text: &[char], width: usize) -> (r: Vec<Vec<char>>)
    ensures
        rows_view(r@) == spec_wrap_words(text@, width as nat),
{
    let words = fields_of(text);
    let ghost wv = spec_fields(text@);
    let mut parts: Vec<Vec<char>> = Vec::new();
    let mut w: usize = 0;
    assert(wv.take(0) =~= Seq::<Seq<char>>::empty());
    while w < words.len()
        invariant
            w <= words.len(),
            words@.map_values(|l: Vec<char>| l@) == wv,
            rows_view(parts@) == word_parts(wv.take(w as int), width as nat),
        decreases words.len() - w,
    {
        let pieces = wrap(&words[w], width);
        proof {
            assert(wv.take(w + 1).drop_last() =~= wv.take(w as int));
            assert(wv.take(w + 1).last() == words@[w as int]@);
        }
        append_rows(&mut parts, &pieces);
        w = w + 1;
    }
    assert(wv.take(words.len() as int) =~= wv);
    let ghost pv = rows_view(parts@);
    let mut rows: Vec<Vec<char>> = Vec::new();
    let mut row: Vec<char> = Vec::new();
    let mut i: usize = 0;
    assert(pv.take(0) =~= Seq::<Seq<char>>::empty());
    assert(rows_view(rows@) =~= Seq::<Seq<char>>::empty());
    while i < parts.len()
        invariant
            i <= parts.len(),
            pv == rows_view(parts@),
            words_fold(pv.take(i as int), width as nat) == (rows_view(rows@), row@),
        decreases parts.len() - i,
    {
        let part = &parts[i];
        proof {
            assert(pv.take(i + 1).drop_last() =~= pv.take(i as int));
            assert(pv.take(i + 1).last() == part@);
        }
        if row.len() > 0 {
            let rs = string_from(&row);
            let ps = string_from(part);
            let a = text_width(rs.as_str());
            let b = text_width(ps.as_str());
            if a >= width || b > width - a - 1 {
                let done = row;
                push_line(&mut rows, done);
                row = Vec::new();
            }
        }
        if row.len() > 0 {
            row.push(' ');
        }
        extend(&mut row, part);
        i = i + 1;
    }
    assert(pv.take(parts.len() as int) =~= pv);
    if row.len() > 0 || rows.len() == 0 {
        push_line(&mut rows, row);
    }
    rows
}

/// The columns of the results table: hash, message, type and day.
pub open spec fn table_width(w: usize) -> nat {
    if w >= 40 {
        (w - 2) as nat
    } else {
        38
    }
}

pub open spec fn kind_width(width: nat) -> nat {
    if width >= 88 {
        26
    } else if width >= 62 {
        18
    } else {
        8
    }
}

pub open spec fn column_widths(width: nat) -> Seq<nat> {
    let kind = kind_width(width);
    let message = if width >= 7 + 10 + kind + 6 + 7 {
        (width - (7 + 10 + kind + 6)) as nat
    } else {
        7
    };
    seq![7, message, kind, 10]
}

impl Terminal {
    /// One cell on line `n` of a table row: that row of the wrapped text (or
    /// nothing), padded to the column width, inked.
    pub open spec fn table_cell(&self, rows: Seq<Seq<char>>, n: int, w: nat, color: u8, bold: bool) -> Seq<
        char,
    > {
        let text = if n < rows.len() {
            rows[n]
        } else {
            seq![]
        };
        let tw = spec_text_width(text) as nat;
        let pad: nat = if w > tw {
            (w - tw) as nat
        } else {
            0
        };
        self.spec_ink(text + spaces(pad), color, bold)
    }

    pub open spec fn table_line(
        &self,
        wrapped: Seq<Seq<Seq<char>>>,
        n: int,
        widths: Seq<nat>,
        colors: Seq<u8>,
        bold: bool,
    ) -> Seq<char> {
        "  "@ + trim_end(
            join(
                Seq::new(4, |i: int| self.table_cell(wrapped[i], n, widths[i], colors[i], bold)),
                "  "@,
            ),
        )
    }

    /// A table row: each cell's words wrapped to its column, as many lines as the
    /// tallest cell needs.
    pub open spec fn spec_table_row(
        &self,
        cells: Seq<Seq<char>>,
        widths: Seq<nat>,
        colors: Seq<u8>,
        bold: bool,
    ) -> Seq<char> {
        let wrapped = Seq::new(4, |i: int| spec_wrap_words(spec_clean(cells[i]), widths[i]));
        let height = max_len(wrapped);
        join(Seq::new(height, |n: int| self.table_line(wrapped, n, widths, colors, bold)), "\n"@)
    }

    fn table_row(&self, cells: &Vec<Vec<char>>, widths: &Vec<usize>, colors: &Vec<u8>, bold: bool) -> (r:
        Vec<char>)
        requires
            cells.len() == 4,
            widths.len() == 4,
            colors.len() == 4,
        ensures
            r@ == self.spec_table_row(
                cells@.map_values(|c: Vec<char>| c@),
                widths@.map_values(|w: usize| w as nat),
                colors@,
                bold,
            ),
    {
        let ghost cv = cells@.map_values(|c: Vec<char>| c@);
        let ghost wv = widths@.map_values(|w: usize| w as nat);
        let ghost want = Seq::new(4, |i: int| spec_wrap_words(spec_clean(cv[i]), wv[i]));
        let mut wrapped: Vec<Vec<Vec<char>>> = Vec::new();
        let mut i: usize = 0;
        while i < 4
            invariant
                i <= 4,
                cells.len() == 4,
                widths.len() == 4,
                cv == cells@.map_values(|c: Vec<char>| c@),
                wv == widths@.map_values(|w: usize| w as nat),
                want == Seq::new(4, |i: int| spec_wrap_words(spec_clean(cv[i]), wv[i])),
                wrapped.len() == i,
                forall|j: int| 0 <= j < i ==> rows_view(#[trigger] wrapped@[j]@) == want[j],
            decreases 4 - i,
        {
            let c = clean_chars(&cells[i]);
            let ws = wrap_words(&c, widths[i]);
            wrapped.push(ws);
            i = i + 1;
        }
        let mut height: usize = 0;
        let mut k: usize = 0;
        while k < 4
            invariant
                k <= 4,
                wrapped.len() == 4,
                want.len() == 4,
                forall|j: int| 0 <= j < 4 ==> rows_view(#[trigger] wrapped@[j]@) == want[j],
                height == max_len(want.take(k as int)),
            decreases 4 - k,
        {
            proof {
                assert(want.take(k + 1).drop_last() =~= want.take(k as int));
            }
            if wrapped[k].len() > height {
                height = wrapped[k].len();
            }
            k = k + 1;
        }
        assert(want.take(4) =~= want);
        let ghost lines = Seq::new(height as nat, |n: int| self.table_line(want, n, wv, colors@, bold));
        let mut out: Vec<Vec<char>> = Vec::new();
        let mut n: usize = 0;
        while n < height
            invariant
                n <= height,
                height == max_len(want),
                want.len() == 4,
                wrapped.len() == 4,
                widths.len() == 4,
                colors.len() == 4,
                forall|j: int| 0 <= j < 4 ==> rows_view(#[trigger] wrapped@[j]@) == want[j],
                wv == widths@.map_values(|w: usize| w as nat),
                lines == Seq::new(height as nat, |n: int| self.table_line(want, n, wv, colors@, bold)),
                rows_view(out@) == lines.take(n as int),
            decreases height - n,
        {
            let mut cell_texts: Vec<Vec<char>> = Vec::new();
            let mut i: usize = 0;
            while i < 4
                invariant
                    i <= 4,
                    n < height,
                    want.len() == 4,
                    wrapped.len() == 4,
                    widths.len() == 4,
                    colors.len() == 4,
                    forall|j: int| 0 <= j < 4 ==> rows_view(#[trigger] wrapped@[j]@) == want[j],
                    wv == widths@.map_values(|w: usize| w as nat),
                    cell_texts.len() == i,
                    forall|j: int|
                        0 <= j < i ==> (#[trigger] cell_texts@[j])@ == self.table_cell(
                            want[j],
                            n as int,
                            wv[j],
                            colors@[j],
                            bold,
                        ),
                decreases 4 - i,
            {
                let mut text: Vec<char> = if n < wrapped[i].len() {
                    copy_chars(&wrapped[i][n])
                } else {
                    Vec::new()
                };
                proof {
                    if n < wrapped@[i as int].len() {
                        assert(rows_view(wrapped@[i as int]@)[n as int] == wrapped@[i as int]@[n as int]@);
                    }
                }
                let ts = string_from(&text);
                let tw = text_width(ts.as_str());
                if widths[i] > tw {
                    push_spaces(&mut text, widths[i] - tw);
                } else {
                    assert(spaces(0) =~= Seq::<char>::empty());
                    assert(text@ + spaces(0) =~= text@);
                }
                let styled = self.ink_chars(&text, colors[i], bold);
                cell_texts.push(styled);
                i = i + 1;
            }
            let joined = join_chars(&cell_texts, "  ");
            let trimmed = trim_end_chars(&joined);
            let mut line: Vec<char> = Vec::new();
            append_chars(&mut line, "  ");
            extend(&mut line, &trimmed);
            proof {
                assert(cell_texts@.map_values(|c: Vec<char>| c@) =~= Seq::new(
                    4,
                    |i: int| self.table_cell(want[i], n as int, wv[i], colors@[i], bold),
                ));
                assert(line@ == lines[n as int]);
            }
            push_line(&mut out, line);
            assert(lines.take(n + 1) =~= lines.take(n as int).push(lines[n as int]));
            n = n + 1;
        }
        assert(lines.take(height as int) =~= lines);
        join_chars(&out, "\n")
    }
}

/// The greatest number of rows among the groups.
pub open spec fn max_len(groups: Seq<Seq<Seq<char>>>) -> nat
    decreases groups.len(),
{
    if groups.len() == 0 {
        0
    } else {
        let m = max_len(groups.drop_last());
        if groups.last().len() > m {
            groups.last().len()
        } else {
            m
        }
    }
}

/// A result's cells in the table: short hash, first message line, classification
/// (with its CWEs, or `CWE unresolved`, for a security one) and day.
pub open spec fn record_cells(r: ResultRecord, t: u64, cats: Seq<Category>) -> Seq<Seq<char>> {
    let (kind, family) = classification(r, t, cats);
    let ws = cwes_of(r, t, cats);
    let k = if family == "security"@ {
        kind + " · "@ + if ws.len() == 0 {
            "CWE unresolved"@
        } else {
            join(cwe_names(ws), ", "@)
        }
    } else {
        kind
    };
    let stamp = shown_date(r.commit);
    seq![
        take_chars(r.commit.sha@, 7),
        first_line(r.commit.message@),
        k,
        if stamp.len() == 0 {
            "—"@
        } else {
            take_chars(stamp, 10)
        },
    ]
}

/// The colour of a result's classification.
pub open spec fn record_color(r: ResultRecord, t: u64, cats: Seq<Category>) -> u8 {
    let f = classification(r, t, cats).1;
    if f == "status"@ {
        179
    } else if f == "context"@ {
        244
    } else {
        spec_family_color(f)
    }
}

pub open spec fn table_header() -> Seq<Seq<char>> {
    seq!["COMMIT"@, "MESSAGE"@, "TYPE / CWE"@, "DATE"@]
}

impl Terminal {
    /// The results table: a heading with the count, the column titles, a rule, a row
    /// per result and an empty line.
    pub open spec fn spec_table(&self, records: Seq<&ResultRecord>, t: u64, cats: Seq<Category>) -> Seq<
        char,
    > {
        let width = table_width(self.width);
        let widths = column_widths(width);
        join(
            seq![
                self.spec_heading("Commits"@, dec(records.len()) + " results"@),
                self.spec_table_row(table_header(), widths, seq![244u8, 244u8, 244u8, 244u8], true),
                "  "@ + self.spec_rule(Seq::new(width, |i: int| '─')),
            ] + records.map_values(
                |r: &ResultRecord|
                    self.spec_table_row(
                        record_cells(*r, t, cats),
                        widths,
                        seq![141u8, 252u8, record_color(*r, t, cats), 244u8],
                        false,
                    ),
            ) + seq![seq![]],
            "\n"@,
        )
    }

    fn record_row(&self, r: &ResultRecord, t: u64, taxonomy: &Taxonomy, widths: &Vec<usize>) -> (out:
        Vec<char>)
        requires
            widths.len() == 4,
        ensures
            out@ == self.spec_table_row(
                record_cells(*r, t, taxonomy.categories@),
                widths@.map_values(|w: usize| w as nat),
                seq![141u8, 252u8, record_color(*r, t, taxonomy.categories@), 244u8],
                false,
            ),
    {
        let cwes = r.cwes(t, taxonomy);
        let (kind, family) = r.primary_classification(t, taxonomy);
        let color: u8 = if str_eq(family, "status") {
            179
        } else if str_eq(family, "context") {
            244
        } else {
            family_color(family)
        };
        let mut k = chars_of(kind.as_str());
        if str_eq(family, "security") {
            append_chars(&mut k, " · ");
            if cwes.len() == 0 {
                append_chars(&mut k, "CWE unresolved");
            } else {
                let list = cwe_list(&cwes, ", ");
                extend(&mut k, &list);
            }
        }
        let stamp = if r.commit.committed_at.as_str().unicode_len() == 0 {
            r.commit.date.as_str()
        } else {
            r.commit.committed_at.as_str()
        };
        let day = if stamp.unicode_len() == 0 {
            chars_of("—")
        } else {
            first_chars(stamp, 10)
        };
        let mut cells: Vec<Vec<char>> = Vec::new();
        cells.push(first_chars(r.commit.sha.as_str(), 7));
        let m = chars_of(r.commit.message.as_str());
        let ls = crate::text::lines_of(&m);
        if ls.len() > 0 {
            cells.push(copy_chars(&ls[0]));
        } else {
            cells.push(Vec::new());
        }
        cells.push(k);
        cells.push(day);
        let colors: Vec<u8> = vec![141u8, 252u8, color, 244u8];
        proof {
            let cats = taxonomy.categories@;
            assert(m@ == r.commit.message@);
            if ls@.len() > 0 {
                assert(ls@[0]@ == crate::text::spec_lines(m@)[0]);
            }
            assert(cells@.map_values(|c: Vec<char>| c@) =~= record_cells(*r, t, cats));
            assert(colors@ =~= seq![141u8, 252u8, record_color(*r, t, cats), 244u8]);
        }
        self.table_row(&cells, widths, &colors, false)
    }

    /// The table of results.
    pub fn table(&self, records: &[&ResultRecord], threshold: u64, taxonomy: &Taxonomy) -> (s:
        String)
        ensures
            s@ == self.spec_table(records@, threshold, taxonomy.categories@),
    {
        let width: usize = if self.width >= 40 {
            self.width - 2
        } else {
            38
        };
        let kind: usize = if width >= 88 {
            26
        } else if width >= 62 {
            18
        } else {
            8
        };
        let message: usize = if width >= 7 + 10 + kind + 6 + 7 {
            width - (7 + 10 + kind + 6)
        } else {
            7
        };
        let widths: Vec<usize> = vec![7, message, kind, 10];
        let ghost wv = widths@.map_values(|w: usize| w as nat);
        assert(wv =~= column_widths(table_width(self.width)));
        let mut out: Vec<Vec<char>> = Vec::new();
        let mut count: Vec<char> = Vec::new();
        push_decimal_chars(&mut count, records.len() as u64);
        append_chars(&mut count, " results");
        let title = chars_of("Commits");
        let head = self.heading_lines(&title, &count);
        push_line(&mut out, join_chars(&head, "\n"));
        let mut header: Vec<Vec<char>> = Vec::new();
        header.push(chars_of("COMMIT"));
        header.push(chars_of("MESSAGE"));
        header.push(chars_of("TYPE / CWE"));
        header.push(chars_of("DATE"));
        assert(header@.map_values(|c: Vec<char>| c@) =~= table_header());
        let grey: Vec<u8> = vec![244u8, 244u8, 244u8, 244u8];
        assert(grey@ =~= seq![244u8, 244u8, 244u8, 244u8]);
        push_line(&mut out, self.table_row(&header, &widths, &grey, true));
        let mut bar: Vec<char> = Vec::new();
        let mut b: usize = 0;
        while b < width
            invariant
                b <= width,
                bar@ == Seq::new(b as nat, |i: int| '─'),
            decreases width - b,
        {
            bar.push('─');
            b = b + 1;
            assert(bar@ =~= Seq::new(b as nat, |i: int| '─'));
        }
        let mut rule_line: Vec<char> = Vec::new();
        append_chars(&mut rule_line, "  ");
        let bs = string_from(&bar);
        let ruled = self.rule(bs.as_str());
        extend(&mut rule_line, &ruled);
        push_line(&mut out, rule_line);
        let ghost cats = taxonomy.categories@;
        let ghost rows = records@.map_values(
            |r: &ResultRecord|
                self.spec_table_row(
                    record_cells(*r, threshold, cats),
                    wv,
                    seq![141u8, 252u8, record_color(*r, threshold, cats), 244u8],
                    false,
                ),
        );
        let ghost head3 = rows_view(out@);
        let mut i: usize = 0;
        while i < records.len()
            invariant
                i <= records.len(),
                widths.len() == 4,
                wv == widths@.map_values(|w: usize| w as nat),
                cats == taxonomy.categories@,
                rows == records@.map_values(
                    |r: &ResultRecord|
                        self.spec_table_row(
                            record_cells(*r, threshold, cats),
                            wv,
                            seq![141u8, 252u8, record_color(*r, threshold, cats), 244u8],
                            false,
                        ),
                ),
                rows_view(out@) == head3 + rows.take(i as int),
            decreases records.len() - i,
        {
            let line = self.record_row(records[i], threshold, taxonomy, &widths);
            push_line(&mut out, line);
            assert(rows.take(i + 1) =~= rows.take(i as int).push(rows[i as int]));
            i = i + 1;
        }
        assert(rows.take(records.len() as int) =~= rows);
        push_line(&mut out, Vec::new());
        assert(rows_view(out@) =~= seq![
            self.spec_heading("Commits"@, dec(records@.len()) + " results"@),
            self.spec_table_row(table_header(), wv, seq![244u8, 244u8, 244u8, 244u8], true),
            "  "@ + self.spec_rule(Seq::new(table_width(self.width), |i: int| '─')),
        ] + rows + seq![seq![]]);
        let joined = join_chars(&out, "\n");
        string_from(&joined)
    }
}

// ---------------------------------------------------------------------------
// Result card
// ---------------------------------------------------------------------------
/// The text a score is shown as, from a table of scores and their texts (the first
/// entry for the score); nothing for a score the table lacks.
pub open spec fn percent_text(ps: Seq<(u64, String)>, p: u64) -> Seq<char>
    decreases ps.len(),
{
    if ps.len() == 0 {
        seq![]
    } else if ps[0].0 == p {
        ps[0].1@
    } else {
        percent_text(ps.skip(1), p)
    }
}

fn percent_of(ps: &Vec<(u64, String)>, p: u64) -> (r: Vec<char>)
    ensures
        r@ == percent_text(ps@, p),
{
    let mut i: usize = 0;
    assert(ps@.skip(0) =~= ps@);
    while i < ps.len()
        invariant
            i <= ps.len(),
            percent_text(ps@, p) == percent_text(ps@.skip(i as int), p),
        decreases ps.len() - i,
    {
        assert(ps@.skip(i as int).skip(1) =~= ps@.skip(i + 1));
        if ps[i].0 == p {
            return chars_of(ps[i].1.as_str());
        }
        i = i + 1;
    }
    Vec::new()
}

/// The categories scored at least `t`, as taxonomy positions with their scores.
pub open spec fn card_candidates(r: ResultRecord, t: u64, cats: Seq<Category>) -> Seq<(int, u64)>
    decreases cats.len(),
{
    if cats.len() == 0 {
        seq![]
    } else {
        let k = cats.len() - 1;
        card_candidates(r, t, cats.drop_last()) + match probability_of(r, cats[k].id@) {
            Some(p) => if float_ge(p, t) {
                seq![(k, p)]
            } else {
                seq![]
            },
            None => seq![],
        }
    }
}

pub open spec fn candidate_keys(c: Seq<(int, u64)>) -> Seq<i128> {
    c.map_values(|x: (int, u64)| order_key(x.1) as i128)
}

/// `CWE-N · ` for a weakness.
pub open spec fn cwe_prefix(cwe: Option<u32>) -> Seq<char> {
    match cwe {
        Some(n) => "CWE-"@ + dec(n as nat) + " · "@,
        None => seq![],
    }
}

/// The first line of a commit message, or `(no message)` for an empty one.
pub open spec fn card_title(message: Seq<char>) -> Seq<char> {
    if spec_lines(message).len() > 0 {
        spec_lines(message)[0]
    } else {
        "(no message)"@
    }
}

impl Terminal {
    pub open spec fn card_label(
        &self,
        cats: Seq<Category>,
        x: (int, u64),
        ps: Seq<(u64, String)>,
    ) -> Seq<Seq<char>> {
        let c = cats[x.0];
        self.spec_body(
            spec_to_uppercase(c.family@) + "  "@ + cwe_prefix(c.cwe) + c.label@ + "  "@
                + percent_text(ps, x.1),
            spec_family_color(c.family@),
            false,
        )
    }

    /// The lines of a reviewed result's card between its title and its footer.
    pub open spec fn card_scores(
        &self,
        r: ResultRecord,
        t: u64,
        cats: Seq<Category>,
        ps: Seq<(u64, String)>,
        order: Seq<usize>,
    ) -> Seq<Seq<char>> {
        let cw = join(cwe_names(cwes_of(r, t, cats)), ", "@);
        let sec = probability_of(r, "security_fix"@);
        let bug = probability_of(r, "bug_fix"@);
        let has_sec = sec matches Some(p) && float_ge(p, t);
        let has_bug = bug matches Some(p) && float_ge(p, t);
        let cands = card_candidates(r, t, cats);
        (if has_sec {
            self.spec_body(
                (if cw.len() == 0 {
                    "SECURITY REVIEW · CWE unresolved"@
                } else {
                    "SECURITY FIX · "@ + cw
                }) + "  "@ + percent_text(ps, sec->0),
                204,
                true,
            )
        } else {
            seq![]
        }) + (if has_bug {
            self.spec_body("BUG FIX  "@ + percent_text(ps, bug->0), 179, true)
        } else {
            seq![]
        }) + (if cands.len() == 0 && !has_sec && !has_bug {
            self.spec_body("Unclassified"@, 244, false)
        } else {
            seq![]
        }) + concat_rows(
            Seq::new(order.len(), |j: int| self.card_label(cats, cands[order[j] as int], ps)),
        ) + (match score_lookup(r.probabilities@, "insufficient_context"@) {
            Some(s) => if float_ge(s, t) {
                self.spec_body("NEEDS CONTEXT  "@ + percent_text(ps, s), 141, false)
            } else {
                seq![]
            },
            None => seq![],
        }) + self.spec_body(
            take_chars(shown_date(r.commit), 10) + " · "@ + r.commit.author@ + " · "@ + dec(
                r.commit.files@.len(),
            ) + " files"@,
            244,
            false,
        ) + (if r.status@ == "partial"@ {
            self.spec_body(
                "Partial evidence · "@ + dec(r.evaluated as nat) + " / "@ + dec(r.total as nat)
                    + " sections"@,
                179,
                false,
            )
        } else {
            seq![]
        })
    }

    /// A result's card: its hash and title, then its status and warnings when it was
    /// not reviewed, else its classifications with their scores (categories by
    /// descending score, listed in `order`), its date, author and file count.
    pub open spec fn spec_card(
        &self,
        r: ResultRecord,
        t: u64,
        cats: Seq<Category>,
        ps: Seq<(u64, String)>,
        order: Seq<usize>,
    ) -> Seq<char> {
        let head = seq![
            "  "@ + self.spec_rule("╭─"@) + " "@ + self.spec_ink(take_chars(r.commit.sha@, 10), 141, true),
        ] + self.spec_body(card_title(r.commit.message@), 252, true);
        let foot = seq!["  "@ + self.spec_rule("╰─"@) + "\n"@];
        join(
            if !crate::model::is_reviewed(r) {
                head + self.spec_body(
                    if r.status@ == "failed"@ {
                        "FAILED"@
                    } else {
                        "NOT ANALYZED"@
                    },
                    179,
                    true,
                ) + concat_rows(r.warnings@.map_values(|w: String| self.spec_body(w@, 244, false)))
                    + foot
            } else {
                head + self.card_scores(r, t, cats, ps, order) + foot
            },
            "\n"@,
        )
    }

    fn body_text(&self, out: &mut Vec<Vec<char>>, text: &Vec<char>, color: u8, bold: bool)
        ensures
            rows_view(final(out)@) == rows_view(old(out)@) + self.spec_body(text@, color, bold),
    {
        self.body(out, text, color, bold);
    }

    fn card_candidates_exec(r: &ResultRecord, t: u64, taxonomy: &Taxonomy) -> (res: (
        Vec<usize>,
        Vec<u64>,
        Vec<usize>,
    ))
        ensures
            res.0.len() == res.1.len(),
            Seq::new(res.0@.len(), |j: int| (res.0@[j] as int, res.1@[j])) == card_candidates(
                *r,
                t,
                taxonomy.categories@,
            ),
            forall|j: int| 0 <= j < res.0@.len() ==> (#[trigger] res.0@[j]) < taxonomy.categories@.len(),
            is_stable_descending(
                candidate_keys(card_candidates(*r, t, taxonomy.categories@)),
                res.2@,
            ),
    {
        let cats = &taxonomy.categories;
        let mut cand_idx: Vec<usize> = Vec::new();
        let mut cand_p: Vec<u64> = Vec::new();
        let mut k: usize = 0;
        assert(cats@.take(0) =~= Seq::<Category>::empty());
        while k < cats.len()
            invariant
                k <= cats.len(),
                cand_idx.len() == cand_p.len(),
                Seq::new(cand_idx@.len(), |j: int| (cand_idx@[j] as int, cand_p@[j]))
                    == card_candidates(*r, t, cats@.take(k as int)),
                forall|j: int| 0 <= j < cand_idx@.len() ==> (#[trigger] cand_idx@[j]) < k,
            decreases cats.len() - k,
        {
            assert(cats@.take(k + 1).drop_last() =~= cats@.take(k as int));
            assert(cats@.take(k + 1)[k as int] == cats@[k as int]);
            let ghost before = Seq::new(cand_idx@.len(), |j: int| (cand_idx@[j] as int, cand_p@[j]));
            match r.probability(cats[k].id.as_str()) {
                Some(p) => {
                    if ge(p, t) {
                        cand_idx.push(k);
                        cand_p.push(p);
                        assert(Seq::new(cand_idx@.len(), |j: int| (cand_idx@[j] as int, cand_p@[j]))
                            =~= before.push((k as int, p)));
                    }
                },
                None => {},
            }
            k = k + 1;
        }
        assert(cats@.take(cats.len() as int) =~= cats@);
        let ghost cands = card_candidates(*r, t, cats@);
        let mut keys: Vec<i128> = Vec::new();
        let mut j: usize = 0;
        while j < cand_p.len()
            invariant
                j <= cand_p.len(),
                cand_idx.len() == cand_p.len(),
                Seq::new(cand_idx@.len(), |j: int| (cand_idx@[j] as int, cand_p@[j])) == cands,
                keys@ == candidate_keys(cands).take(j as int),
            decreases cand_p.len() - j,
        {
            keys.push(total_key(cand_p[j]) as i128);
            assert(keys@ =~= candidate_keys(cands).take(j + 1));
            j = j + 1;
        }
        assert(candidate_keys(cands).take(cand_p.len() as int) =~= candidate_keys(cands));
        let order = stable_descending(&keys);
        (cand_idx, cand_p, order)
    }

    fn card_head(&self, out: &mut Vec<Vec<char>>, r: &ResultRecord)
        ensures
            rows_view(final(out)@) == rows_view(old(out)@) + seq![
                "  "@ + self.spec_rule("╭─"@) + " "@ + self.spec_ink(take_chars(r.commit.sha@, 10), 141, true),
            ] + self.spec_body(card_title(r.commit.message@), 252, true),
    {
        let mut first: Vec<char> = Vec::new();
        append_chars(&mut first, "  ");
        let top = self.rule("╭─");
        extend(&mut first, &top);
        append_chars(&mut first, " ");
        let short = first_chars(r.commit.sha.as_str(), 10);
        let sh = self.ink_chars(&short, 141, true);
        extend(&mut first, &sh);
        push_line(out, first);
        let m = chars_of(r.commit.message.as_str());
        let ls = lines_of(&m);
        let title = if ls.len() > 0 {
            copy_chars(&ls[0])
        } else {
            chars_of("(no message)")
        };
        proof {
            if ls@.len() > 0 {
                assert(ls@[0]@ == spec_lines(r.commit.message@)[0]);
            }
        }
        assert(title@ == card_title(r.commit.message@));
        self.body_text(out, &title, 252, true);
    }

    fn card_foot(&self, out: &mut Vec<Vec<char>>)
        ensures
            rows_view(final(out)@) == rows_view(old(out)@).push("  "@ + self.spec_rule("╰─"@) + "\n"@),
    {
        let mut last: Vec<char> = Vec::new();
        append_chars(&mut last, "  ");
        let bottom = self.rule("╰─");
        extend(&mut last, &bottom);
        append_chars(&mut last, "\n");
        push_line(out, last);
    }

    fn card_status(&self, out: &mut Vec<Vec<char>>, r: &ResultRecord)
        ensures
            rows_view(final(out)@) == rows_view(old(out)@) + self.spec_body(
                if r.status@ == "failed"@ {
                    "FAILED"@
                } else {
                    "NOT ANALYZED"@
                },
                179,
                true,
            ) + concat_rows(r.warnings@.map_values(|w: String| self.spec_body(w@, 244, false))),
    {
        let status = if str_eq(r.status.as_str(), "failed") {
            chars_of("FAILED")
        } else {
            chars_of("NOT ANALYZED")
        };
        self.body_text(out, &status, 179, true);
        let ghost mid = rows_view(out@);
        let ghost groups = r.warnings@.map_values(|w: String| self.spec_body(w@, 244, false));
        let mut w: usize = 0;
        assert(groups.take(0) =~= Seq::<Seq<Seq<char>>>::empty());
        while w < r.warnings.len()
            invariant
                w <= r.warnings.len(),
                groups == r.warnings@.map_values(|w: String| self.spec_body(w@, 244, false)),
                rows_view(out@) == mid + concat_rows(groups.take(w as int)),
            decreases r.warnings.len() - w,
        {
            let text = chars_of(r.warnings[w].as_str());
            self.body_text(out, &text, 244, false);
            assert(groups.take(w + 1).drop_last() =~= groups.take(w as int));
            w = w + 1;
        }
        assert(groups.take(r.warnings.len() as int) =~= groups);
    }

    fn card_core(
        &self,
        out: &mut Vec<Vec<char>>,
        r: &ResultRecord,
        t: u64,
        taxonomy: &Taxonomy,
        percents: &Vec<(u64, String)>,
        no_candidates: bool,
    )
        ensures
            ({
                let cats = taxonomy.categories@;
                let ps = percents@;
                let cw = join(cwe_names(cwes_of(*r, t, cats)), ", "@);
                let sec = probability_of(*r, "security_fix"@);
                let bug = probability_of(*r, "bug_fix"@);
                let has_sec = sec matches Some(p) && float_ge(p, t);
                let has_bug = bug matches Some(p) && float_ge(p, t);
                rows_view(final(out)@) == rows_view(old(out)@) + (if has_sec {
                    self.spec_body(
                        (if cw.len() == 0 {
                            "SECURITY REVIEW · CWE unresolved"@
                        } else {
                            "SECURITY FIX · "@ + cw
                        }) + "  "@ + percent_text(ps, sec->0),
                        204,
                        true,
                    )
                } else {
                    seq![]
                }) + (if has_bug {
                    self.spec_body("BUG FIX  "@ + percent_text(ps, bug->0), 179, true)
                } else {
                    seq![]
                }) + (if no_candidates && !has_sec && !has_bug {
                    self.spec_body("Unclassified"@, 244, false)
                } else {
                    seq![]
                })
            }),
    {
        let cwes = r.cwes(t, taxonomy);
        let cw = crate::export::cwe_list(&cwes, ", ");
        let mut core = false;
        let ghost o0 = rows_view(out@);
        match r.probability("security_fix") {
            Some(p) => {
                if ge(p, t) {
                    core = true;
                    let mut text: Vec<char> = if cw.len() == 0 {
                        chars_of("SECURITY REVIEW · CWE unresolved")
                    } else {
                        let mut x = chars_of("SECURITY FIX · ");
                        extend(&mut x, &cw);
                        x
                    };
                    append_chars(&mut text, "  ");
                    let pt = percent_of(percents, p);
                    extend(&mut text, &pt);
                    self.body_text(out, &text, 204, true);
                }
            },
            None => {},
        }
        let ghost o1 = rows_view(out@);
        match r.probability("bug_fix") {
            Some(p) => {
                if ge(p, t) {
                    core = true;
                    let mut text = chars_of("BUG FIX  ");
                    let pt = percent_of(percents, p);
                    extend(&mut text, &pt);
                    self.body_text(out, &text, 179, true);
                }
            },
            None => {},
        }
        let ghost o2 = rows_view(out@);
        if no_candidates && !core {
            let text = chars_of("Unclassified");
            self.body_text(out, &text, 244, false);
        }
        assert(o1 =~= o0 + (o1.subrange(o0.len() as int, o1.len() as int)));
    }

    fn card_labels(
        &self,
        out: &mut Vec<Vec<char>>,
        taxonomy: &Taxonomy,
        percents: &Vec<(u64, String)>,
        cand_idx: &Vec<usize>,
        cand_p: &Vec<u64>,
        order: &Vec<usize>,
    )
        requires
            order.len() == cand_idx.len(),
            cand_idx.len() == cand_p.len(),
            forall|x: int| 0 <= x < order.len() ==> (#[trigger] order@[x]) < cand_idx.len(),
            forall|x: int| 0 <= x < cand_idx.len() ==> (#[trigger] cand_idx@[x]) < taxonomy.categories@.len(),
        ensures
            ({
                let cands = Seq::new(cand_idx@.len(), |j: int| (cand_idx@[j] as int, cand_p@[j]));
                rows_view(final(out)@) == rows_view(old(out)@) + concat_rows(
                    Seq::new(
                        order@.len(),
                        |j: int| self.card_label(taxonomy.categories@, cands[order@[j] as int], percents@),
                    ),
                )
            }),
    {
        let cats = &taxonomy.categories;
        let ghost ps = percents@;
        let ghost cands = Seq::new(cand_idx@.len(), |j: int| (cand_idx@[j] as int, cand_p@[j]));
        let ghost before_labels = rows_view(out@);
        let ghost groups = Seq::new(order@.len(), |j: int| self.card_label(cats@, cands[order@[j] as int], ps));
        let mut q: usize = 0;
        assert(groups.take(0) =~= Seq::<Seq<Seq<char>>>::empty());
        while q < order.len()
            invariant
                q <= order.len(),
                order.len() == cand_idx.len(),
                cand_idx.len() == cand_p.len(),
                forall|x: int| 0 <= x < order.len() ==> (#[trigger] order@[x]) < cand_idx.len(),
                forall|x: int| 0 <= x < cand_idx.len() ==> (#[trigger] cand_idx@[x]) < cats.len(),
                cands == Seq::new(cand_idx@.len(), |j: int| (cand_idx@[j] as int, cand_p@[j])),
                ps == percents@,
                groups == Seq::new(order@.len(), |j: int| self.card_label(cats@, cands[order@[j] as int], ps)),
                rows_view(out@) == before_labels + concat_rows(groups.take(q as int)),
            decreases order.len() - q,
        {
            let x = order[q];
            let c = &cats[cand_idx[x]];
            let p = cand_p[x];
            let fam = to_uppercase(c.family.as_str());
            let mut text = chars_of(fam.as_str());
            append_chars(&mut text, "  ");
            match c.cwe {
                Some(n) => {
                    append_chars(&mut text, "CWE-");
                    push_decimal_chars(&mut text, n as u64);
                    append_chars(&mut text, " · ");
                },
                None => {},
            }
            append_chars(&mut text, c.label.as_str());
            append_chars(&mut text, "  ");
            let pt = percent_of(percents, p);
            extend(&mut text, &pt);
            let color = family_color(c.family.as_str());
            proof {
                assert(cands[x as int] == (cand_idx@[x as int] as int, p));
                assert(text@ =~= spec_to_uppercase(c.family@) + "  "@ + cwe_prefix(c.cwe) + c.label@
                    + "  "@ + percent_text(ps, p));
            }
            self.body_text(out, &text, color, false);
            assert(groups.take(q + 1).drop_last() =~= groups.take(q as int));
            q = q + 1;
        }
        assert(groups.take(order.len() as int) =~= groups);
    }

    fn card_tail(&self, out: &mut Vec<Vec<char>>, r: &ResultRecord, t: u64, percents: &Vec<(u64, String)>)
        ensures
            rows_view(final(out)@) == rows_view(old(out)@) + (match score_lookup(
                r.probabilities@,
                "insufficient_context"@,
            ) {
                Some(s) => if float_ge(s, t) {
                    self.spec_body("NEEDS CONTEXT  "@ + percent_text(percents@, s), 141, false)
                } else {
                    seq![]
                },
                None => seq![],
            }) + self.spec_body(
                take_chars(shown_date(r.commit), 10) + " · "@ + r.commit.author@ + " · "@ + dec(
                    r.commit.files@.len(),
                ) + " files"@,
                244,
                false,
            ) + (if r.status@ == "partial"@ {
                self.spec_body(
                    "Partial evidence · "@ + dec(r.evaluated as nat) + " / "@ + dec(r.total as nat)
                        + " sections"@,
                    179,
                    false,
                )
            } else {
                seq![]
            }),
    {
        let ghost o0 = rows_view(out@);
        match lookup_score(&r.probabilities, "insufficient_context") {
            Some(s) => {
                if ge(s, t) {
                    let mut text = chars_of("NEEDS CONTEXT  ");
                    let pt = percent_of(percents, s);
                    extend(&mut text, &pt);
                    self.body_text(out, &text, 141, false);
                }
            },
            None => {},
        }
        let stamp = if r.commit.committed_at.as_str().unicode_len() == 0 {
            r.commit.date.as_str()
        } else {
            r.commit.committed_at.as_str()
        };
        let mut meta = first_chars(stamp, 10);
        append_chars(&mut meta, " · ");
        append_chars(&mut meta, r.commit.author.as_str());
        append_chars(&mut meta, " · ");
        push_decimal_chars(&mut meta, r.commit.files.len() as u64);
        append_chars(&mut meta, " files");
        self.body_text(out, &meta, 244, false);
        if str_eq(r.status.as_str(), "partial") {
            let mut text = chars_of("Partial evidence · ");
            push_decimal_chars(&mut text, r.evaluated as u64);
            append_chars(&mut text, " / ");
            push_decimal_chars(&mut text, r.total as u64);
            append_chars(&mut text, " sections");
            self.body_text(out, &text, 179, false);
        }
    }

    /// A result's card. `percents` gives the text each score is shown as (its
    /// percentage, formatted where floating point is at hand).
    pub fn record(
        &self,
        r: &ResultRecord,
        threshold: u64,
        taxonomy: &Taxonomy,
        percents: &Vec<(u64, String)>,
    ) -> (s: String)
        ensures
            exists|o: Seq<usize>|
                #![trigger is_stable_descending(candidate_keys(card_candidates(*r, threshold, taxonomy.categories@)), o)]
                is_stable_descending(
                    candidate_keys(card_candidates(*r, threshold, taxonomy.categories@)),
                    o,
                ) && s@ == self.spec_card(*r, threshold, taxonomy.categories@, percents@, o),
    {
        let (cand_idx, cand_p, order) = Self::card_candidates_exec(r, threshold, taxonomy);
        let mut out: Vec<Vec<char>> = Vec::new();
        self.card_head(&mut out, r);
        if !r.reviewed() {
            self.card_status(&mut out, r);
        } else {
            self.card_core(&mut out, r, threshold, taxonomy, percents, cand_idx.len() == 0);
            self.card_labels(&mut out, taxonomy, percents, &cand_idx, &cand_p, &order);
            self.card_tail(&mut out, r, threshold, percents);
        }
        self.card_foot(&mut out);
        let joined = join_chars(&out, "\n");
        proof {
            let cands = card_candidates(*r, threshold, taxonomy.categories@);
            assert(cands.len() == cand_idx.len());
            assert(rows_view(out@) =~= if !crate::model::is_reviewed(*r) {
                seq![
                    "  "@ + self.spec_rule("╭─"@) + " "@ + self.spec_ink(take_chars(r.commit.sha@, 10), 141, true),
                ] + self.spec_body(card_title(r.commit.message@), 252, true) + self.spec_body(
                    if r.status@ == "failed"@ {
                        "FAILED"@
                    } else {
                        "NOT ANALYZED"@
                    },
                    179,
                    true,
                ) + concat_rows(r.warnings@.map_values(|w: String| self.spec_body(w@, 244, false)))
                    + seq!["  "@ + self.spec_rule("╰─"@) + "\n"@]
            } else {
                seq![
                    "  "@ + self.spec_rule("╭─"@) + " "@ + self.spec_ink(take_chars(r.commit.sha@, 10), 141, true),
                ] + self.spec_body(card_title(r.commit.message@), 252, true) + self.card_scores(
                    *r,
                    threshold,
                    taxonomy.categories@,
                    percents@,
                    order@,
                ) + seq!["  "@ + self.spec_rule("╰─"@) + "\n"@]
            });
        }
        string_from(&joined)
    }
}

fn lookup_score(ps: &Vec<(String, u64)>, id: &str) -> (r: Option<u64>)
    ensures
        r == score_lookup(ps@, id@),
{
    let mut i: usize = 0;
    assert(ps@.skip(0) =~= ps@);
    while i < ps.len()
        invariant
            i <= ps.len(),
            score_lookup(ps@, id@) == score_lookup(ps@.skip(i as int), id@),
        decreases ps.len() - i,
    {
        assert(ps@.skip(i as int).skip(1) =~= ps@.skip(i + 1));
        if str_eq(ps[i].0.as_str(), id) {
            return Some(ps[i].1);
        }
        i = i + 1;
    }
    None
}

} // verus!

verus! {

// ---------------------------------------------------------------------------
// The progress bar
// ---------------------------------------------------------------------------
pub open spec fn repeated(c: char, n: nat) -> Seq<char> {
    Seq::new(n, |i: int| c)
}

/// A clock field: at least two digits.
pub open spec fn two_digits(n: nat) -> Seq<char> {
    if n < 10 {
        "0"@ + dec(n)
    } else {
        dec(n)
    }
}

/// Elapsed seconds as `HH:MM:SS`; the hours may run past two digits.
pub open spec fn spec_clock(seconds: nat) -> Seq<char> {
    two_digits(seconds / 3600) + ":"@ + two_digits((seconds / 60) % 60) + ":"@ + two_digits(
        seconds % 60,
    )
}

/// What follows the bar: the percentage (already written, right-aligned in three
/// places) and the elapsed time.
pub open spec fn spec_progress_suffix(percent: Seq<char>, seconds: nat) -> Seq<char> {
    " "@ + percent + "% · elapsed "@ + spec_clock(seconds)
}

fn push_two_digits(out: &mut Vec<char>, n: u64)
    ensures
        final(out)@ == old(out)@ + two_digits(n as nat),
{
    if n < 10 {
        out.push('0');
        push_decimal_chars(out, n);
        proof {
            reveal_strlit("0");
        }
        assert(out@ =~= old(out)@ + two_digits(n as nat));
    } else {
        push_decimal_chars(out, n);
    }
}

fn push_repeated(out: &mut Vec<char>, c: char, n: usize)
    ensures
        final(out)@ == old(out)@ + repeated(c, n as nat),
{
    let ghost start = out@;
    let mut i: usize = 0;
    while i < n
        invariant
            i <= n,
            out@ == start + repeated(c, i as nat),
        decreases n - i,
    {
        out.push(c);
        i = i + 1;
        assert(out@ =~= start + repeated(c, i as nat));
    }
}

/// The elapsed time as `HH:MM:SS`.
pub fn clock(seconds: u64) -> (r: String)
    ensures
        r@ == spec_clock(seconds as nat),
{
    let mut out: Vec<char> = Vec::new();
    push_two_digits(&mut out, seconds / 3600);
    out.push(':');
    push_two_digits(&mut out, (seconds / 60) % 60);
    out.push(':');
    push_two_digits(&mut out, seconds % 60);
    proof {
        reveal_strlit(":");
    }
    assert(out@ =~= spec_clock(seconds as nat));
    string_from(&out)
}

/// The text after a progress bar: ` <percent>% · elapsed HH:MM:SS`.
pub fn progress_suffix(percent: &str, seconds: u64) -> (r: String)
    ensures
        r@ == spec_progress_suffix(percent@, seconds as nat),
{
    let mut out: Vec<char> = Vec::new();
    append_chars(&mut out, " ");
    append_chars(&mut out, percent);
    append_chars(&mut out, "% · elapsed ");
    let c = clock(seconds);
    append_chars(&mut out, c.as_str());
    string_from(&out)
}

impl Terminal {
    /// The bar's width: what is left of the line after the indent and the suffix,
    /// and at least one column.
    pub open spec fn spec_bar_width(&self, suffix: Seq<char>) -> nat {
        let left = self.width - 2 - spec_text_width(suffix);
        if left >= 1 {
            left as nat
        } else {
            1
        }
    }

    pub open spec fn spec_progress(&self, suffix: Seq<char>, filled: nat, complete: bool) -> Seq<
        char,
    > {
        let width = self.spec_bar_width(suffix);
        let done = if filled <= width {
            filled
        } else {
            width
        };
        "  "@ + self.spec_ink(repeated('━', done), if complete {
            78
        } else {
            141
        }, false) + self.spec_rule(repeated('─', (width - done) as nat)) + self.spec_ink(
            suffix,
            244,
            false,
        ) + "\n"@
    }

    /// How many columns the bar may fill beside the given suffix.
    pub fn bar_width(&self, suffix: &str) -> (r: usize)
        ensures
            r == self.spec_bar_width(suffix@),
    {
        let used = text_width(suffix).saturating_add(2);
        let left = self.width.saturating_sub(used);
        if left >= 1 {
            left
        } else {
            1
        }
    }

    /// One line of progress: `filled` columns of the bar drawn (at most its width),
    /// green once the work is complete, then the rest of the bar and the suffix.
    pub fn progress(&self, suffix: &str, filled: usize, complete: bool) -> (r: String)
        ensures
            r@ == self.spec_progress(suffix@, filled as nat, complete),
    {
        let width = self.bar_width(suffix);
        let done = if filled <= width {
            filled
        } else {
            width
        };
        let mut bar: Vec<char> = Vec::new();
        push_repeated(&mut bar, '━', done);
        let mut rest: Vec<char> = Vec::new();
        push_repeated(&mut rest, '─', width - done);
        let mut out: Vec<char> = Vec::new();
        append_chars(&mut out, "  ");
        let a = self.ink_chars(&bar, if complete {
            78
        } else {
            141
        }, false);
        extend(&mut out, &a);
        let b = self.ink_chars(&rest, 244, false);
        extend(&mut out, &b);
        let sc = chars_of(suffix);
        let c = self.ink_chars(&sc, 244, false);
        extend(&mut out, &c);
        out.push('\n');
        proof {
            reveal_strlit("\n");
        }
        assert(out@ =~= self.spec_progress(suffix@, filled as nat, complete));
        string_from(&out)
    }
}

/// A security row of the results table names its weaknesses: for a reviewed result
/// that some category with a CWE scored at least the threshold, the type cell is
/// `Security fix · ` followed by the scored CWEs as `CWE-n` in taxonomy order, joined
/// by `, `, and it lists every such CWE; for a security review with no CWE scored it
/// ends in `CWE unresolved`.
pub proof fn law_security_rows_name_their_weaknesses(r: ResultRecord, t: u64, cats: Seq<Category>)
    requires
        r.status@ == "complete"@ || r.status@ == "partial"@,
    ensures
        cwes_of(r, t, cats).len() > 0 ==> record_cells(r, t, cats)[2] == "Security fix · "@ + join(
            cwe_names(cwes_of(r, t, cats)),
            ", "@,
        ),
        forall|k: int|
            0 <= k < cats.len() && (#[trigger] cats[k]).cwe is Some && has_score(r, cats[k].id@, t)
                ==> cwes_of(r, t, cats).contains(cats[k].cwe->0),
        cwes_of(r, t, cats).len() == 0 && classification(r, t, cats).1 == "security"@
            ==> record_cells(r, t, cats)[2] == classification(r, t, cats).0 + " · CWE unresolved"@,
{
    lemma_cwes_found(r, t, cats);
    reveal_strlit(" · ");
    reveal_strlit("CWE unresolved");
    reveal_strlit(" · CWE unresolved");
    assert(" · "@ + "CWE unresolved"@ =~= " · CWE unresolved"@);
    reveal_strlit("Security fix");
    reveal_strlit("Security fix · ");
    assert("Security fix"@ + " · "@ =~= "Security fix · "@);
}

} // verus!
