//! Terminal presentation: sanitised, styled and wrapped text.
use crate::model::{Category, Taxonomy};
use crate::text::{
    append_chars, chars_of, decimal_chars, join, join_chars, push_decimal_chars, string_from,
};
use vstd::prelude::*;

verus! {

#[derive(Clone, Copy)]
pub enum ColorMode {
    Auto,
    Always,
    Never,
}

/// Whether output is styled, and how many columns it may use.
#[derive(Clone, Copy)]
pub struct Terminal {
    pub color: bool,
    pub width: usize,
}

/// `char::is_control`: the general category Cc.
pub open spec fn spec_is_control(c: char) -> bool {
    (c as u32) <= 0x1f || (0x7f <= (c as u32) && (c as u32) <= 0x9f)
}

/// Kept when printing: not a control character and not a bidirectional embedding,
/// override or isolate.
pub open spec fn printable(c: char) -> bool {
    &&& !spec_is_control(c)
    &&& !('\u{202a}' <= c && c <= '\u{202e}')
    &&& !('\u{2066}' <= c && c <= '\u{2069}')
}

/// The text without control and bidirectional-formatting characters.
pub open spec fn spec_clean(s: Seq<char>) -> Seq<char>
    decreases s.len(),
{
    if s.len() == 0 {
        s
    } else if printable(s.last()) {
        spec_clean(s.drop_last()).push(s.last())
    } else {
        spec_clean(s.drop_last())
    }
}

/// Text shown in the terminal carries no control or bidirectional-formatting
/// character of its own, so data cannot move the cursor, restyle the screen or
/// reorder what is shown; and text that has none loses nothing.
pub proof fn law_cleaned_text_is_printable(s: Seq<char>)
    ensures
        forall|i: int| 0 <= i < spec_clean(s).len() ==> printable(#[trigger] spec_clean(s)[i]),
        (forall|i: int| 0 <= i < s.len() ==> printable(#[trigger] s[i])) ==> spec_clean(s) == s,
    decreases s.len(),
{
    if s.len() > 0 {
        law_cleaned_text_is_printable(s.drop_last());
        let c = spec_clean(s.drop_last());
        assert forall|i: int| 0 <= i < spec_clean(s).len() implies printable(#[trigger] spec_clean(s)[i]) by {
            if printable(s.last()) && i == c.len() {
            } else {
                assert(spec_clean(s)[i] == c[i]);
            }
        }
        if forall|i: int| 0 <= i < s.len() ==> printable(#[trigger] s[i]) {
            assert forall|i: int| 0 <= i < s.drop_last().len() implies printable(#[trigger] s.drop_last()[i]) by {
                assert(s.drop_last()[i] == s[i]);
            }
            assert(printable(s[s.len() - 1]));
            assert(s.drop_last().push(s.last()) =~= s);
        }
    }
}

fn printable_exec(c: char) -> (r: bool)
    ensures
        r == printable(c),
{
    let v: u32 = c as u32;
    !(v <= 0x1f || (0x7f <= v && v <= 0x9f)) && !('\u{202a}' <= c && c <= '\u{202e}') && !(
    '\u{2066}' <= c && c <= '\u{2069}')
}

pub(crate) fn clean_chars(v: &[char]) -> (r: Vec<char>)
    ensures
        r@ == spec_clean(v@),
{
    let mut out: Vec<char> = Vec::new();
    let mut i: usize = 0;
    while i < v.len()
        invariant
            i <= v.len(),
            out@ == spec_clean(v@.take(i as int)),
        decreases v.len() - i,
    {
        proof {
            assert(v@.take(i + 1).drop_last() =~= v@.take(i as int));
        }
        if printable_exec(v[i]) {
            out.push(v[i]);
        }
        i = i + 1;
    }
    assert(v@.take(v.len() as int) =~= v@);
    out
}

/// Removes control and bidirectional-formatting characters from text shown in the
/// terminal.
pub fn clean(s: &str) -> (r: String)
    ensures
        r@ == spec_clean(s@),
{
    let c = chars_of(s);
    let k = clean_chars(&c);
    string_from(&k)
}

pub open spec fn escape_start() -> Seq<char> {
    seq!['\u{1b}', '[']
}

/// The ANSI codes a forced style writes around text: the 256-colour foreground
/// (`\x1b[38;5;Nm`) unless the colour is the terminal default 252, bold (`\x1b[1m`)
/// when asked, then the text and a reset (`\x1b[0m`) when any code was written.
pub open spec fn spec_styled(text: Seq<char>, color: u8, bold: bool, enabled: bool) -> Seq<char> {
    let colored = color != 252;
    if enabled && (colored || bold) {
        (if colored {
            escape_start() + "38;5;"@ + decimal_chars(color as nat) + seq!['m']
        } else {
            seq![]
        }) + (if bold {
            escape_start() + seq!['1', 'm']
        } else {
            seq![]
        }) + text + escape_start() + seq!['0', 'm']
    } else {
        text
    }
}

/// Name for the display width that `console::measure_text_width` gives a text; a
/// function of the text alone.
pub uninterp spec fn spec_text_width(s: Seq<char>) -> usize;

/// `console::measure_text_width`: the number of terminal columns the text takes
/// once ANSI escape sequences (which start with ESC or CSI) are stripped; printable
/// ASCII takes one column per character.
#[verifier::external_body]
pub(crate) fn text_width(s: &str) -> (r: usize)
    ensures
        r == spec_text_width(s@),
        (forall|i: int| 0 <= i < s@.len() ==> ' ' <= #[trigger] s@[i] && s@[i] <= '~') ==> r == s@.len(),
{
    console::measure_text_width(s)
}

pub open spec fn char_width(c: char) -> usize {
    spec_text_width(seq![c])
}

pub(crate) fn char_width_exec(c: char) -> (r: usize)
    ensures
        r == char_width(c),
{
    let mut s = String::new();
    crate::text::push_char(&mut s, c);
    assert(s@ =~= seq![c]);
    text_width(s.as_str())
}

/// Rows gathered so far, the current row and its width.
pub struct WrapState {
    pub rows: Seq<Seq<char>>,
    pub row: Seq<char>,
    pub size: nat,
}

pub open spec fn wrap_step(st: WrapState, c: char, width: nat) -> WrapState {
    let n = char_width(c) as nat;
    let st1 = if st.size + n > width && st.row.len() > 0 {
        WrapState { rows: st.rows.push(st.row), row: seq![], size: 0 }
    } else {
        st
    };
    WrapState { rows: st1.rows, row: st1.row.push(c), size: st1.size + n }
}

pub open spec fn wrap_fold(text: Seq<char>, width: nat) -> WrapState
    decreases text.len(),
{
    if text.len() == 0 {
        WrapState { rows: seq![], row: seq![], size: 0 }
    } else {
        wrap_step(wrap_fold(text.drop_last(), width), text.last(), width)
    }
}

/// The text cut into rows of at most `width` display columns; a character wider
/// than the row still gets a row of its own, and empty text gives one empty row.
pub open spec fn spec_wrap(text: Seq<char>, width: nat) -> Seq<Seq<char>> {
    let st = wrap_fold(text, width);
    if st.row.len() > 0 || st.rows.len() == 0 {
        st.rows.push(st.row)
    } else {
        st.rows
    }
}

pub open spec fn rows_view(rows: Seq<Vec<char>>) -> Seq<Seq<char>> {
    rows.map_values(|r: Vec<char>| r@)
}

/// Wraps by display columns, so wide Unicode and long paths cannot push cards off
/// screen.
pub(crate) fn wrap(text: &[char], width: usize) -> (r: Vec<Vec<char>>)
    ensures
        rows_view(r@) == spec_wrap(text@, width as nat),
{
    let mut rows: Vec<Vec<char>> = Vec::new();
    let mut row: Vec<char> = Vec::new();
    let mut size: usize = 0;
    let mut i: usize = 0;
    assert(text@.take(0) =~= Seq::<char>::empty());
    assert(rows_view(rows@) =~= Seq::<Seq<char>>::empty());
    assert(row@ =~= Seq::<char>::empty());
    while i < text.len()
        invariant
            i <= text.len(),
            size <= width || row@.len() == 1,
            wrap_fold(text@.take(i as int), width as nat) == (WrapState {
                rows: rows_view(rows@),
                row: row@,
                size: size as nat,
            }),
        decreases text.len() - i,
    {
        let c = text[i];
        let n = char_width_exec(c);
        proof {
            assert(text@.take(i + 1).drop_last() =~= text@.take(i as int));
        }
        let over = n > width || size > width - n;
        if over && row.len() > 0 {
            let done = row;
            let ghost before = rows@;
            rows.push(done);
            assert(rows_view(rows@) =~= rows_view(before).push(done@));
            row = Vec::new();
            size = 0;
        }
        row.push(c);
        size = size + n;
        i = i + 1;
    }
    assert(text@.take(text.len() as int) =~= text@);
    if row.len() > 0 || rows.len() == 0 {
        let ghost before = rows@;
        rows.push(row);
        assert(rows_view(rows@) =~= rows_view(before).push(row@));
    }
    rows
}

pub open spec fn spec_family_color(s: Seq<char>) -> u8 {
    if s == "security"@ {
        204
    } else if s == "bug"@ {
        179
    } else if s == "change"@ {
        80
    } else {
        244
    }
}

fn equal_str(a: &str, b: &str) -> (r: bool)
    ensures
        r == (a@ == b@),
{
    let x = chars_of(a);
    let y = chars_of(b);
    crate::text::equal_chars(&x, &y)
}

/// The colour each classification family is shown in.
pub(crate) fn family_color(s: &str) -> (r: u8)
    ensures
        r == spec_family_color(s@),
{
    if equal_str(s, "security") {
        204
    } else if equal_str(s, "bug") {
        179
    } else if equal_str(s, "change") {
        80
    } else {
        244
    }
}

/// The width rows of body text may take.
pub open spec fn row_width(width: usize) -> nat {
    if width >= 7 {
        (width - 6) as nat
    } else {
        1
    }
}

pub struct CategoryView {
    pub id: Seq<char>,
    pub label: Seq<char>,
    pub family: Seq<char>,
    pub cwe: Option<u32>,
}

impl View for Category {
    type V = CategoryView;

    open spec fn view(&self) -> CategoryView {
        CategoryView { id: self.id@, label: self.label@, family: self.family@, cwe: self.cwe }
    }
}

/// `text` padded with spaces to at least `n` characters.
pub open spec fn pad_right(text: Seq<char>, n: nat) -> Seq<char> {
    if text.len() >= n {
        text
    } else {
        text + Seq::new((n - text.len()) as nat, |i: int| ' ')
    }
}

/// ` · CWE-N` for a weakness, nothing otherwise.
pub open spec fn cwe_suffix(cwe: Option<u32>) -> Seq<char> {
    match cwe {
        Some(n) => " · CWE-"@ + decimal_chars(n as nat),
        None => seq![],
    }
}

pub open spec fn family_title(family: Seq<char>) -> Seq<char> {
    if family == "security"@ {
        "SECURITY"@
    } else if family == "bug"@ {
        "BUG"@
    } else {
        "CHANGE"@
    }
}

impl Terminal {
    /// The style settings from what the process found: the requested mode, `--plain`,
    /// whether the stream is a terminal, whether `NO_COLOR` is set, the `TERM`
    /// variable and the terminal's column count.
    pub fn from_environment(
        mode: ColorMode,
        plain: bool,
        tty: bool,
        no_color: bool,
        term: Option<&str>,
        columns: Option<u16>,
    ) -> (r: Terminal)
        ensures
            r.color == (!plain && match mode {
                ColorMode::Always => true,
                ColorMode::Never => false,
                ColorMode::Auto => tty && !no_color && match term {
                    Some(t) => t@ != "dumb"@,
                    None => false,
                },
            }),
            r.width == ({
                let w: int = match columns {
                    Some(c) => c as int,
                    None => 100,
                };
                if w < 16 {
                    16
                } else if w > 120 {
                    120
                } else {
                    w
                }
            }),
    {
        let color = !plain && match mode {
            ColorMode::Always => true,
            ColorMode::Never => false,
            ColorMode::Auto => tty && !no_color && match term {
                Some(t) => !equal_str(t, "dumb"),
                None => false,
            },
        };
        let w: usize = match columns {
            Some(c) => c as usize,
            None => 100,
        };
        let width = if w < 16 {
            16
        } else if w > 120 {
            120
        } else {
            w
        };
        Terminal { color, width }
    }

    pub open spec fn spec_ink(&self, s: Seq<char>, color: u8, bold: bool) -> Seq<char> {
        spec_styled(spec_clean(s), color, bold, self.color)
    }

    pub(crate) fn ink_chars(&self, s: &[char], color: u8, bold: bool) -> (r: Vec<char>)
        ensures
            r@ == self.spec_ink(s@, color, bold),
    {
        let text = clean_chars(s);
        let mut out: Vec<char> = Vec::new();
        if self.color && (color != 252 || bold) {
            if color != 252 {
                out.push('\u{1b}');
                out.push('[');
                append_chars(&mut out, "38;5;");
                push_decimal_chars(&mut out, color as u64);
                out.push('m');
            }
            if bold {
                out.push('\u{1b}');
                out.push('[');
                out.push('1');
                out.push('m');
            }
            let mut i: usize = 0;
            let ghost before = out@;
            while i < text.len()
                invariant
                    i <= text.len(),
                    out@ == before + text@.take(i as int),
                decreases text.len() - i,
            {
                out.push(text[i]);
                i = i + 1;
                assert(out@ =~= before + text@.take(i as int));
            }
            assert(text@.take(text.len() as int) =~= text@);
            out.push('\u{1b}');
            out.push('[');
            out.push('0');
            out.push('m');
            assert(out@ =~= self.spec_ink(s@, color, bold));
        } else {
            out = text;
        }
        out
    }

    /// The text, without control and bidirectional characters, in the given 256-colour
    /// foreground (252 is the default) and weight when styling is on.
    pub fn ink(&self, s: &str, color: u8, bold: bool) -> (r: String)
        ensures
            r@ == self.spec_ink(s@, color, bold),
    {
        let c = chars_of(s);
        let k = self.ink_chars(&c, color, bold);
        string_from(&k)
    }

    pub open spec fn spec_rule(&self, s: Seq<char>) -> Seq<char> {
        self.spec_ink(s, 244, false)
    }

    pub(crate) fn rule(&self, s: &str) -> (r: Vec<char>)
        ensures
            r@ == self.spec_rule(s@),
    {
        let c = chars_of(s);
        self.ink_chars(&c, 244, false)
    }

    pub open spec fn spec_rows(&self, text: Seq<char>) -> Seq<Seq<char>> {
        spec_wrap(spec_clean(text), row_width(self.width))
    }

    pub(crate) fn rows(&self, text: &[char]) -> (r: Vec<Vec<char>>)
        ensures
            rows_view(r@) == self.spec_rows(text@),
    {
        let c = clean_chars(text);
        let w = if self.width >= 7 {
            self.width - 6
        } else {
            1
        };
        wrap(&c, w)
    }

    /// One body line: `  │ row`.
    pub open spec fn spec_body_line(&self, row: Seq<char>, color: u8, bold: bool) -> Seq<char> {
        "  "@ + self.spec_rule("│"@) + " "@ + self.spec_ink(row, color, bold)
    }

    pub open spec fn spec_body(&self, text: Seq<char>, color: u8, bold: bool) -> Seq<Seq<char>> {
        self.spec_rows(text).map_values(|row: Seq<char>| self.spec_body_line(row, color, bold))
    }

    pub(crate) fn body(&self, out: &mut Vec<Vec<char>>, text: &[char], color: u8, bold: bool)
        ensures
            rows_view(final(out)@) == rows_view(old(out)@) + self.spec_body(text@, color, bold),
    {
        let rows = self.rows(text);
        let ghost start = rows_view(out@);
        let ghost want = self.spec_body(text@, color, bold);
        let mut i: usize = 0;
        while i < rows.len()
            invariant
                i <= rows.len(),
                rows_view(rows@) == self.spec_rows(text@),
                want == self.spec_body(text@, color, bold),
                rows_view(out@) == start + want.take(i as int),
            decreases rows.len() - i,
        {
            let mut line: Vec<char> = Vec::new();
            append_chars(&mut line, "  ");
            let r = self.rule("│");
            let mut k: usize = 0;
            let ghost l0 = line@;
            while k < r.len()
                invariant
                    k <= r.len(),
                    line@ == l0 + r@.take(k as int),
                decreases r.len() - k,
            {
                line.push(r[k]);
                k = k + 1;
                assert(line@ =~= l0 + r@.take(k as int));
            }
            assert(r@.take(r.len() as int) =~= r@);
            append_chars(&mut line, " ");
            let styled = self.ink_chars(&rows[i], color, bold);
            let mut k: usize = 0;
            let ghost l1 = line@;
            while k < styled.len()
                invariant
                    k <= styled.len(),
                    line@ == l1 + styled@.take(k as int),
                decreases styled.len() - k,
            {
                line.push(styled[k]);
                k = k + 1;
                assert(line@ =~= l1 + styled@.take(k as int));
            }
            assert(styled@.take(styled.len() as int) =~= styled@);
            proof {
                assert(rows_view(rows@)[i as int] == rows@[i as int]@);
                assert(line@ =~= self.spec_body_line(rows@[i as int]@, color, bold));
            }
            let ghost before = out@;
            out.push(line);
            proof {
                assert(rows_view(out@) =~= rows_view(before).push(line@));
                assert(want.take(i + 1) =~= want.take(i as int).push(want[i as int]));
            }
            i = i + 1;
        }
        assert(want.take(rows.len() as int) =~= want);
    }

    pub open spec fn spec_activity_line(&self, i: int, row: Seq<char>) -> Seq<char> {
        "  "@ + self.spec_ink(
            if i == 0 {
                "›"@
            } else {
                " "@
            },
            141,
            true,
        ) + " "@ + self.spec_ink(row, 244, false)
    }

    pub open spec fn spec_activity(&self, message: Seq<char>) -> Seq<char> {
        let rows = self.spec_rows(message);
        join(Seq::new(rows.len(), |i: int| self.spec_activity_line(i, rows[i])), "\n"@)
    }

    /// A progress message: `›` before its first row, every row dimmed.
    pub fn activity(&self, message: &str) -> (r: String)
        ensures
            r@ == self.spec_activity(message@),
    {
        let m = chars_of(message);
        let rows = self.rows(&m);
        let ghost want = Seq::new(
            rows@.len(),
            |i: int| self.spec_activity_line(i, rows@[i]@),
        );
        let mut lines: Vec<Vec<char>> = Vec::new();
        let mut i: usize = 0;
        while i < rows.len()
            invariant
                i <= rows.len(),
                rows_view(lines@) == want.take(i as int),
                want == Seq::new(rows@.len(), |i: int| self.spec_activity_line(i, rows@[i]@)),
            decreases rows.len() - i,
        {
            let mark = if i == 0 {
                "›"
            } else {
                " "
            };
            let mut line: Vec<char> = Vec::new();
            append_chars(&mut line, "  ");
            let mc = chars_of(mark);
            let a = self.ink_chars(&mc, 141, true);
            extend(&mut line, &a);
            append_chars(&mut line, " ");
            let b = self.ink_chars(&rows[i], 244, false);
            extend(&mut line, &b);
            assert(line@ =~= self.spec_activity_line(i as int, rows@[i as int]@));
            let ghost before = lines@;
            lines.push(line);
            proof {
                assert(rows_view(lines@) =~= rows_view(before).push(line@));
                assert(want.take(i + 1) =~= want.take(i as int).push(want[i as int]));
            }
            i = i + 1;
        }
        assert(want.take(rows.len() as int) =~= want);
        let ghost rv = self.spec_rows(message@);
        assert(want =~= Seq::new(rv.len(), |i: int| self.spec_activity_line(i, rv[i])));
        let joined = join_chars(&lines, "\n");
        string_from(&joined)
    }

    pub open spec fn spec_heading_lines(&self, title: Seq<char>, subtitle: Seq<char>) -> Seq<
        Seq<char>,
    > {
        seq!["\n  "@ + self.spec_ink(title, 141, true)] + self.spec_rows(subtitle).map_values(
            |row: Seq<char>| "  "@ + self.spec_ink(row, 244, false),
        ) + seq![seq![]]
    }

    pub(crate) fn heading_lines(&self, title: &[char], subtitle: &[char]) -> (r: Vec<Vec<char>>)
        ensures
            rows_view(r@) == self.spec_heading_lines(title@, subtitle@),
    {
        let mut out: Vec<Vec<char>> = Vec::new();
        let mut first: Vec<char> = Vec::new();
        append_chars(&mut first, "\n  ");
        let t = self.ink_chars(title, 141, true);
        extend(&mut first, &t);
        out.push(first);
        let rows = self.rows(subtitle);
        let ghost want = self.spec_rows(subtitle@).map_values(
            |row: Seq<char>| "  "@ + self.spec_ink(row, 244, false),
        );
        let ghost head = rows_view(out@);
        let mut i: usize = 0;
        while i < rows.len()
            invariant
                i <= rows.len(),
                rows_view(rows@) == self.spec_rows(subtitle@),
                want == self.spec_rows(subtitle@).map_values(
                    |row: Seq<char>| "  "@ + self.spec_ink(row, 244, false),
                ),
                rows_view(out@) == head + want.take(i as int),
            decreases rows.len() - i,
        {
            let mut line: Vec<char> = Vec::new();
            append_chars(&mut line, "  ");
            let b = self.ink_chars(&rows[i], 244, false);
            extend(&mut line, &b);
            let ghost before = out@;
            out.push(line);
            proof {
                assert(rows_view(rows@)[i as int] == rows@[i as int]@);
                assert(rows_view(out@) =~= rows_view(before).push(line@));
                assert(want.take(i + 1) =~= want.take(i as int).push(want[i as int]));
            }
            i = i + 1;
        }
        assert(want.take(rows.len() as int) =~= want);
        let ghost before = out@;
        out.push(Vec::new());
        assert(rows_view(out@) =~= rows_view(before).push(Seq::<char>::empty()));
        assert(rows_view(out@) =~= self.spec_heading_lines(title@, subtitle@));
        out
    }

    pub open spec fn spec_heading(&self, title: Seq<char>, subtitle: Seq<char>) -> Seq<char> {
        join(self.spec_heading_lines(title, subtitle), "\n"@)
    }

    /// A section title with its wrapped, dimmed subtitle.
    pub fn heading(&self, title: &str, subtitle: &str) -> (r: String)
        ensures
            r@ == self.spec_heading(title@, subtitle@),
    {
        let t = chars_of(title);
        let s = chars_of(subtitle);
        let lines = self.heading_lines(&t, &s);
        let joined = join_chars(&lines, "\n");
        string_from(&joined)
    }

    /// The lines one classification takes in the list: on wide terminals its ID,
    /// padded, beside its label; otherwise the ID above the wrapped label.
    pub open spec fn spec_category_lines(&self, c: CategoryView) -> Seq<Seq<char>> {
        let fc = spec_family_color(c.family);
        let label = c.label + cwe_suffix(c.cwe);
        if self.width >= 88 {
            seq![
                "  "@ + self.spec_ink(pad_right(c.id, 24), fc, false) + "  "@ + self.spec_ink(
                    label,
                    252,
                    false,
                ),
            ]
        } else {
            seq!["  "@ + self.spec_ink(c.id, fc, false)] + self.spec_rows(label).map_values(
                |row: Seq<char>| "    "@ + self.spec_ink(row, 244, false),
            )
        }
    }

    /// The lines of every classification of `family`, in taxonomy order.
    pub open spec fn spec_family_lines(&self, cats: Seq<CategoryView>, family: Seq<char>) -> Seq<
        Seq<char>,
    >
        decreases cats.len(),
    {
        if cats.len() == 0 {
            seq![]
        } else if cats.last().family == family {
            self.spec_family_lines(cats.drop_last(), family) + self.spec_category_lines(
                cats.last(),
            )
        } else {
            self.spec_family_lines(cats.drop_last(), family)
        }
    }

    pub open spec fn spec_family_block(&self, cats: Seq<CategoryView>, family: Seq<char>) -> Seq<
        Seq<char>,
    > {
        seq!["  "@ + self.spec_ink(family_title(family), spec_family_color(family), true)]
            + self.spec_family_lines(cats, family) + seq![seq![]]
    }

    pub open spec fn spec_categories(&self, cats: Seq<CategoryView>) -> Seq<char> {
        join(
            seq![
                self.spec_heading(
                    "Classifications"@,
                    "security · bug · change · context · unclassified"@,
                ),
            ] + self.spec_family_block(cats, "security"@) + self.spec_family_block(cats, "bug"@)
                + self.spec_family_block(cats, "change"@),
            "\n"@,
        )
    }

    fn category_lines(&self, c: &Category) -> (r: Vec<Vec<char>>)
        ensures
            rows_view(r@) == self.spec_category_lines(c@),
    {
        let fc = family_color(c.family.as_str());
        let mut label = chars_of(c.label.as_str());
        match c.cwe {
            Some(n) => {
                append_chars(&mut label, " · CWE-");
                push_decimal_chars(&mut label, n as u64);
            },
            None => {},
        }
        assert(label@ =~= c@.label + cwe_suffix(c@.cwe));
        let mut out: Vec<Vec<char>> = Vec::new();
        let id = chars_of(c.id.as_str());
        if self.width >= 88 {
            let mut padded = chars_of(c.id.as_str());
            let ghost base = padded@;
            while padded.len() < 24
                invariant
                    base == c@.id,
                    padded@.len() >= base.len(),
                    padded@.len() <= 24 || padded@ == base,
                    padded@ == base + Seq::new((padded@.len() - base.len()) as nat, |i: int| ' '),
                decreases 24 - padded.len(),
            {
                padded.push(' ');
                assert(padded@ =~= base + Seq::new(
                    (padded@.len() - base.len()) as nat,
                    |i: int| ' ',
                ));
            }
            proof {
                if base.len() >= 24 {
                    assert(padded@ =~= base);
                }
                assert(padded@ =~= pad_right(c@.id, 24));
            }
            let mut line: Vec<char> = Vec::new();
            append_chars(&mut line, "  ");
            let a = self.ink_chars(&padded, fc, false);
            extend(&mut line, &a);
            append_chars(&mut line, "  ");
            let b = self.ink_chars(&label, 252, false);
            extend(&mut line, &b);
            out.push(line);
            assert(rows_view(out@) =~= self.spec_category_lines(c@));
        } else {
            let mut line: Vec<char> = Vec::new();
            append_chars(&mut line, "  ");
            let a = self.ink_chars(&id, fc, false);
            extend(&mut line, &a);
            out.push(line);
            let rows = self.rows(&label);
            let ghost want = self.spec_rows(label@).map_values(
                |row: Seq<char>| "    "@ + self.spec_ink(row, 244, false),
            );
            let ghost head = rows_view(out@);
            let mut i: usize = 0;
            while i < rows.len()
                invariant
                    i <= rows.len(),
                    rows_view(rows@) == self.spec_rows(label@),
                    want == self.spec_rows(label@).map_values(
                        |row: Seq<char>| "    "@ + self.spec_ink(row, 244, false),
                    ),
                    rows_view(out@) == head + want.take(i as int),
                decreases rows.len() - i,
            {
                let mut row_line: Vec<char> = Vec::new();
                append_chars(&mut row_line, "    ");
                let b = self.ink_chars(&rows[i], 244, false);
                extend(&mut row_line, &b);
                let ghost before = out@;
                out.push(row_line);
                proof {
                    assert(rows_view(rows@)[i as int] == rows@[i as int]@);
                    assert(rows_view(out@) =~= rows_view(before).push(row_line@));
                    assert(want.take(i + 1) =~= want.take(i as int).push(want[i as int]));
                }
                i = i + 1;
            }
            assert(want.take(rows.len() as int) =~= want);
            assert(rows_view(out@) =~= self.spec_category_lines(c@));
        }
        out
    }

    fn family_block(&self, cats: &Vec<Category>, family: &str) -> (r: Vec<Vec<char>>)
        ensures
            rows_view(r@) == self.spec_family_block(cats@.map_values(|c: Category| c@), family@),
    {
        let ghost views = cats@.map_values(|c: Category| c@);
        let fc = family_color(family);
        let title = if equal_str(family, "security") {
            "SECURITY"
        } else if equal_str(family, "bug") {
            "BUG"
        } else {
            "CHANGE"
        };
        let tc = chars_of(title);
        let mut out: Vec<Vec<char>> = Vec::new();
        let mut first: Vec<char> = Vec::new();
        append_chars(&mut first, "  ");
        let a = self.ink_chars(&tc, fc, true);
        extend(&mut first, &a);
        out.push(first);
        let ghost head = rows_view(out@);
        assert(head =~= seq![
            "  "@ + self.spec_ink(family_title(family@), spec_family_color(family@), true),
        ]);
        let mut i: usize = 0;
        assert(views.take(0) =~= Seq::<CategoryView>::empty());
        assert(head + self.spec_family_lines(views.take(0), family@) =~= head);
        while i < cats.len()
            invariant
                i <= cats.len(),
                views == cats@.map_values(|c: Category| c@),
                rows_view(out@) == head + self.spec_family_lines(views.take(i as int), family@),
            decreases cats.len() - i,
        {
            let c = &cats[i];
            proof {
                assert(views.take(i + 1).drop_last() =~= views.take(i as int));
                assert(views.take(i + 1).last() == c@);
            }
            if equal_str(c.family.as_str(), family) {
                let lines = self.category_lines(c);
                let mut k: usize = 0;
                let ghost before = rows_view(out@);
                while k < lines.len()
                    invariant
                        k <= lines.len(),
                        rows_view(out@) == before + rows_view(lines@).take(k as int),
                    decreases lines.len() - k,
                {
                    let ghost prev = out@;
                    out.push(copy_chars(&lines[k]));
                    proof {
                        assert(rows_view(out@) =~= rows_view(prev).push(lines@[k as int]@));
                        assert(rows_view(lines@).take(k + 1) =~= rows_view(lines@).take(
                            k as int,
                        ).push(lines@[k as int]@));
                    }
                    k = k + 1;
                }
                assert(rows_view(lines@).take(lines.len() as int) =~= rows_view(lines@));
            }
            i = i + 1;
        }
        assert(views.take(cats.len() as int) =~= views);
        let ghost before = out@;
        out.push(Vec::new());
        assert(rows_view(out@) =~= rows_view(before).push(Seq::<char>::empty()));
        out
    }

    /// The classifications by family, as `commit-miner categories` lists them.
    pub fn categories(&self, taxonomy: &Taxonomy) -> (r: String)
        ensures
            r@ == self.spec_categories(taxonomy.categories@.map_values(|c: Category| c@)),
    {
        let ghost cats = taxonomy.categories@.map_values(|c: Category| c@);
        let t = chars_of("Classifications");
        let s = chars_of("security · bug · change · context · unclassified");
        let head = self.heading_lines(&t, &s);
        let h = join_chars(&head, "\n");
        let mut lines: Vec<Vec<char>> = Vec::new();
        lines.push(h);
        let a = self.family_block(&taxonomy.categories, "security");
        let b = self.family_block(&taxonomy.categories, "bug");
        let c = self.family_block(&taxonomy.categories, "change");
        let ghost l0 = rows_view(lines@);
        append_rows(&mut lines, &a);
        append_rows(&mut lines, &b);
        append_rows(&mut lines, &c);
        assert(rows_view(lines@) =~= seq![
            self.spec_heading(
                "Classifications"@,
                "security · bug · change · context · unclassified"@,
            ),
        ] + self.spec_family_block(cats, "security"@) + self.spec_family_block(cats, "bug"@)
            + self.spec_family_block(cats, "change"@));
        let joined = join_chars(&lines, "\n");
        string_from(&joined)
    }
}

pub(crate) fn extend(out: &mut Vec<char>, more: &Vec<char>)
    ensures
        final(out)@ == old(out)@ + more@,
{
    let ghost start = out@;
    let mut i: usize = 0;
    while i < more.len()
        invariant
            i <= more.len(),
            out@ == start + more@.take(i as int),
        decreases more.len() - i,
    {
        out.push(more[i]);
        i = i + 1;
        assert(out@ =~= start + more@.take(i as int));
    }
    assert(more@.take(more.len() as int) =~= more@);
}

pub(crate) fn copy_chars(v: &Vec<char>) -> (r: Vec<char>)
    ensures
        r@ == v@,
{
    let mut out: Vec<char> = Vec::new();
    extend(&mut out, v);
    out
}

pub(crate) fn append_rows(out: &mut Vec<Vec<char>>, more: &Vec<Vec<char>>)
    ensures
        rows_view(final(out)@) == rows_view(old(out)@) + rows_view(more@),
{
    let ghost start = rows_view(out@);
    let mut i: usize = 0;
    while i < more.len()
        invariant
            i <= more.len(),
            rows_view(out@) == start + rows_view(more@).take(i as int),
        decreases more.len() - i,
    {
        let ghost prev = out@;
        out.push(copy_chars(&more[i]));
        proof {
            assert(rows_view(out@) =~= rows_view(prev).push(more@[i as int]@));
            assert(rows_view(more@).take(i + 1) =~= rows_view(more@).take(i as int).push(
                more@[i as int]@,
            ));
        }
        i = i + 1;
    }
    assert(rows_view(more@).take(more.len() as int) =~= rows_view(more@));
}

} // verus!
