//! Report formats and spreadsheet-safe CSV cells.
use crate::text::{
    is_whitespace, spec_is_whitespace,
    ascii_lower, chars_of, in_words, member, push_char, spec_ascii_lowercase, string_from,
};
use crate::model::{
    Commit, ResultRecord, Scan, Taxonomy, Category, classification, cwes_of,
};
use crate::text::{
    append_chars, decimal_chars, join, join_chars, lines_of, push_decimal_chars, slice_chars,
    spec_lines, matches_at,
};
use vstd::prelude::*;

verus! {

pub open spec fn output_formats() -> Seq<&'static str> {
    seq!["csv", "html"]
}

pub fn ascii_lowercase(s: &str) -> (r: String)
    ensures
        r@ == spec_ascii_lowercase(s@),
{
    let c = chars_of(s);
    let mut out = String::new();
    let mut i: usize = 0;
    while i < c.len()
        invariant
            i <= c.len(),
            c@ == s@,
            out@ == spec_ascii_lowercase(c@.take(i as int)),
        decreases c.len() - i,
    {
        push_char(&mut out, ascii_lower(c[i]));
        i = i + 1;
        assert(out@ =~= spec_ascii_lowercase(c@.take(i as int)));
    }
    assert(c@.take(c.len() as int) =~= c@);
    out
}

/// Chooses the report format: `csv` or `html`, in any ASCII case.
pub fn format(s: &str) -> (r: Result<String, String>)
    ensures
        match r {
            Ok(f) => in_words(spec_ascii_lowercase(s@), output_formats()) && f@
                == spec_ascii_lowercase(s@),
            Err(m) => !in_words(spec_ascii_lowercase(s@), output_formats()) && m@
                == "Choose an output format: csv or html"@,
        },
{
    let lower = ascii_lowercase(s);
    let formats: Vec<&str> = vec!["csv", "html"];
    assert(formats@ == output_formats());
    let c = chars_of(lower.as_str());
    if member(&c, &formats) {
        Ok(lower)
    } else {
        Err(String::from_str("Choose an output format: csv or html"))
    }
}

pub open spec fn is_formula_char(c: char) -> bool {
    c == '=' || c == '+' || c == '-' || c == '@'
}

/// A spreadsheet would read the text as a formula: after leading whitespace it
/// starts with `=`, `+`, `-` or `@`, or it starts with a tab or carriage return.
pub open spec fn starts_formula(s: Seq<char>) -> bool {
    ||| exists|k: int|
        0 <= k < s.len() && is_formula_char(#[trigger] s[k]) && forall|j: int|
            0 <= j < k ==> spec_is_whitespace(s[j])
    ||| (s.len() > 0 && (s[0] == '\t' || s[0] == '\r'))
}

/// Doubles every quote.
pub open spec fn csv_escape(s: Seq<char>) -> Seq<char>
    decreases s.len(),
{
    if s.len() == 0 {
        s
    } else {
        csv_escape(s.drop_last()) + if s.last() == '"' {
            seq!['"', '"']
        } else {
            seq![s.last()]
        }
    }
}

/// Reads quoted-field content back: a doubled quote stands for one quote.
pub open spec fn csv_unescape(s: Seq<char>) -> Seq<char>
    decreases s.len(),
{
    if s.len() == 0 {
        s
    } else if s.len() >= 2 && s[0] == '"' && s[1] == '"' {
        seq!['"'] + csv_unescape(s.skip(2))
    } else {
        seq![s[0]] + csv_unescape(s.skip(1))
    }
}

/// The text the cell holds: the value, behind an apostrophe where it would
/// otherwise start a formula.
pub open spec fn cell_content(value: Seq<char>) -> Seq<char> {
    if starts_formula(value) {
        seq!['\''] + value
    } else {
        value
    }
}

/// A quoted CSV field holding `cell_content(value)`.
pub open spec fn spec_cell(value: Seq<char>) -> Seq<char> {
    seq!['"'] + csv_escape(cell_content(value)) + seq!['"']
}

fn formula(v: &[char]) -> (r: bool)
    ensures
        r == starts_formula(v@),
{
    if v.len() > 0 && (v[0] == '\t' || v[0] == '\r') {
        return true;
    }
    let mut k: usize = 0;
    while k < v.len()
        invariant
            k <= v.len(),
            forall|j: int| 0 <= j < k ==> spec_is_whitespace(v@[j]),
            !(v@.len() > 0 && (v@[0] == '\t' || v@[0] == '\r')),
        decreases v.len() - k,
    {
        let c = v[k];
        if is_formula_char_exec(c) {
            return true;
        }
        if !is_whitespace(c) {
            assert forall|m: int|
                0 <= m < v@.len() && is_formula_char(#[trigger] v@[m]) implies !(forall|j: int|
                0 <= j < m ==> spec_is_whitespace(v@[j])) by {
                if m > k {
                    assert(!spec_is_whitespace(v@[k as int]));
                } else if m < k {
                    assert(spec_is_whitespace(v@[m]));
                }
            }
            return false;
        }
        k = k + 1;
    }
    false
}

fn is_formula_char_exec(c: char) -> (r: bool)
    ensures
        r == is_formula_char(c),
{
    c == '=' || c == '+' || c == '-' || c == '@'
}

proof fn lemma_escape_push(s: Seq<char>, c: char)
    ensures
        csv_escape(s.push(c)) == csv_escape(s) + if c == '"' {
            seq!['"', '"']
        } else {
            seq![c]
        },
{
    assert(s.push(c).drop_last() =~= s);
}

/// Quotes one CSV field; text that would start a formula gets an apostrophe first.
pub fn cell(value: &str) -> (r: String)
    ensures
        r@ == spec_cell(value@),
{
    let v = chars_of(value);
    let guard = formula(&v);
    let mut out = String::new();
    push_char(&mut out, '"');
    if guard {
        push_char(&mut out, '\'');
    }
    let ghost content = cell_content(v@);
    let ghost lead: Seq<char> = if guard {
        seq!['\'']
    } else {
        seq![]
    };
    assert(content =~= lead + v@);
    assert(csv_escape(lead) =~= lead) by {
        assert(csv_escape(Seq::<char>::empty()) =~= Seq::<char>::empty());
        if guard {
            assert(lead.drop_last() =~= Seq::<char>::empty());
        }
    }
    let mut i: usize = 0;
    while i < v.len()
        invariant
            i <= v.len(),
            out@ == seq!['"'] + csv_escape(lead + v@.take(i as int)),
        decreases v.len() - i,
    {
        let c = v[i];
        proof {
            lemma_escape_push(lead + v@.take(i as int), c);
            assert((lead + v@.take(i as int)).push(c) =~= lead + v@.take(i + 1));
        }
        push_char(&mut out, c);
        if c == '"' {
            push_char(&mut out, '"');
        }
        i = i + 1;
        assert(out@ =~= seq!['"'] + csv_escape(lead + v@.take(i as int)));
    }
    assert(v@.take(v.len() as int) =~= v@);
    push_char(&mut out, '"');
    assert(out@ =~= spec_cell(value@));
    out
}

proof fn lemma_unescape_escape(s: Seq<char>)
    ensures
        csv_unescape(csv_escape(s)) == s,
    decreases s.len(),
{
    if s.len() > 0 {
        lemma_unescape_escape_prefix(s);
    }
}

/// Unescaping works front to back; peel the first character of `s`.
proof fn lemma_escape_first(s: Seq<char>)
    requires
        s.len() > 0,
    ensures
        csv_escape(s) == (if s[0] == '"' {
            seq!['"', '"']
        } else {
            seq![s[0]]
        }) + csv_escape(s.skip(1)),
    decreases s.len(),
{
    if s.len() == 1 {
        assert(s.drop_last() =~= Seq::<char>::empty());
        assert(s.skip(1) =~= Seq::<char>::empty());
    } else {
        lemma_escape_first(s.drop_last());
        assert(s.drop_last().skip(1) =~= s.skip(1).drop_last());
        assert(s.skip(1).last() == s.last());
    }
}

proof fn lemma_unescape_escape_prefix(s: Seq<char>)
    requires
        s.len() > 0,
    ensures
        csv_unescape(csv_escape(s)) == s,
    decreases s.len(),
{
    lemma_escape_first(s);
    let rest = csv_escape(s.skip(1));
    if s.len() > 1 {
        lemma_unescape_escape_prefix(s.skip(1));
    } else {
        assert(s.skip(1) =~= Seq::<char>::empty());
        assert(csv_escape(s.skip(1)) =~= Seq::<char>::empty());
        assert(csv_unescape(rest) =~= Seq::<char>::empty());
    }
    assert(csv_unescape(rest) == s.skip(1));
    let e = csv_escape(s);
    if s[0] == '"' {
        assert(e.skip(2) =~= rest);
        assert(csv_unescape(e) == seq!['"'] + csv_unescape(e.skip(2)));
    } else {
        assert(e.skip(1) =~= rest);
        assert(e[0] == s[0]);
        assert(csv_unescape(e) == seq![e[0]] + csv_unescape(e.skip(1)));
    }
    assert(s =~= seq![s[0]] + s.skip(1));
}

/// Reading a cell back gives exactly its content: the value, behind an apostrophe
/// where it would otherwise start a formula.
pub proof fn law_cell_reads_back(value: Seq<char>)
    ensures
        ({
            let c = spec_cell(value);
            &&& c.len() >= 2
            &&& c[0] == '"'
            &&& c.last() == '"'
            &&& csv_unescape(c.subrange(1, c.len() - 1)) == cell_content(value)
        }),
{
    let c = spec_cell(value);
    assert(c.subrange(1, c.len() - 1) =~= csv_escape(cell_content(value)));
    lemma_unescape_escape(cell_content(value));
}

/// No cell's content starts a formula.
pub proof fn law_cell_never_formula(value: Seq<char>)
    ensures
        !starts_formula(cell_content(value)),
{
    if starts_formula(value) {
        let c = cell_content(value);
        assert(c[0] == '\'');
        assert forall|k: int|
            0 <= k < c.len() && is_formula_char(#[trigger] c[k]) implies !(forall|j: int|
            0 <= j < k ==> spec_is_whitespace(c[j])) by {
            assert(!spec_is_whitespace(c[0]));
        }
    }
}

// ---------------------------------------------------------------------------
// Reports
// ---------------------------------------------------------------------------
/// The first line of a text, empty when it has none.
pub open spec fn first_line(m: Seq<char>) -> Seq<char> {
    if spec_lines(m).len() > 0 {
        spec_lines(m)[0]
    } else {
        seq![]
    }
}

/// At most the first `n` characters.
pub open spec fn take_chars(s: Seq<char>, n: nat) -> Seq<char> {
    if s.len() <= n {
        s
    } else {
        s.take(n as int)
    }
}

/// The date shown for a commit: when it was committed, else its author date.
pub open spec fn shown_date(c: Commit) -> Seq<char> {
    if c.committed_at@.len() == 0 {
        c.date@
    } else {
        c.committed_at@
    }
}

pub open spec fn cwe_names(ns: Seq<u32>) -> Seq<Seq<char>> {
    ns.map_values(|n: u32| "CWE-"@ + decimal_chars(n as nat))
}

/// The CWEs of a result as `CWE-<n>`, joined by `sep`.
pub fn cwe_list(ns: &Vec<u32>, sep: &str) -> (r: Vec<char>)
    ensures
        r@ == join(cwe_names(ns@), sep@),
{
    let mut names: Vec<Vec<char>> = Vec::new();
    let mut i: usize = 0;
    while i < ns.len()
        invariant
            i <= ns.len(),
            names@.map_values(|l: Vec<char>| l@) == cwe_names(ns@).take(i as int),
        decreases ns.len() - i,
    {
        let ghost before = names@.map_values(|l: Vec<char>| l@);
        let mut name: Vec<char> = Vec::new();
        append_chars(&mut name, "CWE-");
        push_decimal_chars(&mut name, ns[i] as u64);
        assert(name@ =~= "CWE-"@ + decimal_chars(ns@[i as int] as nat));
        names.push(name);
        assert(names@.map_values(|l: Vec<char>| l@) =~= before.push(name@));
        assert(names@.map_values(|l: Vec<char>| l@) =~= cwe_names(ns@).take(i + 1));
        i = i + 1;
    }
    assert(cwe_names(ns@).take(ns.len() as int) =~= cwe_names(ns@));
    join_chars(&names, sep)
}

/// The CWE column: `Unresolved` for a security classification without a CWE.
pub open spec fn cwe_column(r: ResultRecord, t: u64, cats: Seq<Category>) -> Seq<char> {
    if classification(r, t, cats).1 == "security"@ && cwes_of(r, t, cats).len() == 0 {
        "Unresolved"@
    } else {
        join(cwe_names(cwes_of(r, t, cats)), "; "@)
    }
}

/// A result's CSV fields: commit, first message line, type, CWEs and day.
pub open spec fn csv_fields(r: ResultRecord, t: u64, cats: Seq<Category>) -> Seq<Seq<char>> {
    seq![
        r.commit.sha@,
        first_line(r.commit.message@),
        classification(r, t, cats).0,
        cwe_column(r, t, cats),
        take_chars(shown_date(r.commit), 10),
    ]
}

pub open spec fn csv_header() -> Seq<Seq<char>> {
    seq!["Commit"@, "Message"@, "Type"@, "CWE"@, "Date"@]
}

/// One CSV line: the quoted cells separated by commas.
pub open spec fn csv_line(fields: Seq<Seq<char>>) -> Seq<char> {
    join(fields.map_values(|f: Seq<char>| spec_cell(f)), ","@)
}

/// The threshold a report applies: the filtered view's minimum, else the scan's.
pub open spec fn report_threshold(scan: Scan) -> u64 {
    match scan.selection {
        Some(s) => s.min_probability,
        None => scan.summary.options.threshold,
    }
}

/// The CSV report: a header, then one line per result, each line ended by CRLF.
pub open spec fn csv_report(scan: Scan, cats: Seq<Category>) -> Seq<char> {
    let t = report_threshold(scan);
    let lines = seq![csv_line(csv_header())] + scan.results@.map_values(
        |r: ResultRecord| csv_line(csv_fields(r, t, cats)),
    );
    join(lines, "\r\n"@) + "\r\n"@
}

fn chars_to_cell(v: &Vec<char>) -> (r: Vec<char>)
    ensures
        r@ == spec_cell(v@),
{
    let s = string_from(v);
    let c = cell(s.as_str());
    chars_of(c.as_str())
}

fn line_of(fields: &Vec<Vec<char>>) -> (r: Vec<char>)
    ensures
        r@ == csv_line(fields@.map_values(|l: Vec<char>| l@)),
{
    let ghost fv = fields@.map_values(|l: Vec<char>| l@);
    let mut cells: Vec<Vec<char>> = Vec::new();
    let mut i: usize = 0;
    while i < fields.len()
        invariant
            i <= fields.len(),
            fv == fields@.map_values(|l: Vec<char>| l@),
            cells@.map_values(|l: Vec<char>| l@) == fv.map_values(|f: Seq<char>| spec_cell(f)).take(
                i as int,
            ),
        decreases fields.len() - i,
    {
        let ghost before = cells@.map_values(|l: Vec<char>| l@);
        let c = chars_to_cell(&fields[i]);
        assert(c@ == spec_cell(fv[i as int]));
        cells.push(c);
        assert(cells@.map_values(|l: Vec<char>| l@) =~= before.push(c@));
        assert(cells@.map_values(|l: Vec<char>| l@) =~= fv.map_values(
            |f: Seq<char>| spec_cell(f),
        ).take(i + 1));
        i = i + 1;
    }
    assert(fv.map_values(|f: Seq<char>| spec_cell(f)).take(fields.len() as int) =~= fv.map_values(
        |f: Seq<char>| spec_cell(f),
    ));
    join_chars(&cells, ",")
}

fn first_line_of(m: &str) -> (r: Vec<char>)
    ensures
        r@ == first_line(m@),
{
    let v = chars_of(m);
    let ls = lines_of(&v);
    if ls.len() > 0 {
        assert(ls@[0]@ == spec_lines(m@)[0]);
        slice_chars(&ls[0], 0, ls[0].len())
    } else {
        Vec::new()
    }
}

/// At most the first `n` characters of a text.
pub fn first_chars(s: &str, n: usize) -> (r: Vec<char>)
    ensures
        r@ == take_chars(s@, n as nat),
{
    let v = chars_of(s);
    if v.len() <= n {
        v
    } else {
        slice_chars(&v, 0, n)
    }
}

fn csv_fields_of(r: &ResultRecord, t: u64, taxonomy: &Taxonomy) -> (f: Vec<Vec<char>>)
    ensures
        f@.map_values(|l: Vec<char>| l@) == csv_fields(*r, t, taxonomy.categories@),
{
    let cwes = r.cwes(t, taxonomy);
    let (kind, family) = r.primary_classification(t, taxonomy);
    let column = if crate::text::str_eq(family, "security") && cwes.len() == 0 {
        chars_of("Unresolved")
    } else {
        cwe_list(&cwes, "; ")
    };
    let date = if r.commit.committed_at.as_str().unicode_len() == 0 {
        first_chars(r.commit.date.as_str(), 10)
    } else {
        first_chars(r.commit.committed_at.as_str(), 10)
    };
    let mut f: Vec<Vec<char>> = Vec::new();
    f.push(chars_of(r.commit.sha.as_str()));
    f.push(first_line_of(r.commit.message.as_str()));
    f.push(chars_of(kind.as_str()));
    f.push(column);
    f.push(date);
    assert(f@.map_values(|l: Vec<char>| l@) =~= csv_fields(*r, t, taxonomy.categories@));
    f
}

/// The CSV report of a scan.
pub fn csv(scan: &Scan, taxonomy: &Taxonomy) -> (r: String)
    ensures
        r@ == csv_report(*scan, taxonomy.categories@),
{
    let t = match &scan.selection {
        Some(s) => s.min_probability,
        None => scan.summary.options.threshold,
    };
    let ghost cats = taxonomy.categories@;
    let ghost all = seq![csv_line(csv_header())] + scan.results@.map_values(
        |r: ResultRecord| csv_line(csv_fields(r, t, cats)),
    );
    let mut header: Vec<Vec<char>> = Vec::new();
    header.push(chars_of("Commit"));
    header.push(chars_of("Message"));
    header.push(chars_of("Type"));
    header.push(chars_of("CWE"));
    header.push(chars_of("Date"));
    assert(header@.map_values(|l: Vec<char>| l@) =~= csv_header());
    let mut lines: Vec<Vec<char>> = Vec::new();
    lines.push(line_of(&header));
    let mut i: usize = 0;
    while i < scan.results.len()
        invariant
            i <= scan.results.len(),
            t == report_threshold(*scan),
            cats == taxonomy.categories@,
            all == seq![csv_line(csv_header())] + scan.results@.map_values(
                |r: ResultRecord| csv_line(csv_fields(r, t, cats)),
            ),
            lines@.map_values(|l: Vec<char>| l@) == all.take(i + 1),
        decreases scan.results.len() - i,
    {
        let ghost before = lines@.map_values(|l: Vec<char>| l@);
        let f = csv_fields_of(&scan.results[i], t, taxonomy);
        let line = line_of(&f);
        assert(line@ == all[i + 1]);
        lines.push(line);
        assert(lines@.map_values(|l: Vec<char>| l@) =~= before.push(line@));
        assert(lines@.map_values(|l: Vec<char>| l@) =~= all.take(i + 2));
        i = i + 1;
    }
    assert(all.take(scan.results.len() + 1) =~= all);
    let mut out = join_chars(&lines, "\r\n");
    append_chars(&mut out, "\r\n");
    string_from(&out)
}

/// Data made safe inside a `<script>` element: `<`, `>`, `&` and the two Unicode
/// line separators written as JSON escapes.
pub open spec fn script_safe(s: Seq<char>) -> Seq<char>
    decreases s.len(),
{
    if s.len() == 0 {
        seq![]
    } else {
        script_safe(s.drop_last()) + {
            let c = s.last();
            if c == '<' {
                "\\u003c"@
            } else if c == '>' {
                "\\u003e"@
            } else if c == '&' {
                "\\u0026"@
            } else if c == '\u{2028}' {
                "\\u2028"@
            } else if c == '\u{2029}' {
                "\\u2029"@
            } else {
                seq![c]
            }
        }
    }
}

/// Script text that cannot close its element: each `</script` written `<\/script`.
pub open spec fn close_safe(s: Seq<char>) -> Seq<char>
    decreases s.len(),
{
    if s.len() == 0 {
        seq![]
    } else if s.len() >= 8 && s.take(8) == "</script"@ {
        "<\\/script"@ + close_safe(s.skip(8))
    } else {
        seq![s[0]] + close_safe(s.skip(1))
    }
}

pub open spec fn page_head() -> Seq<char> {
    "<!doctype html><html lang=\"en\"><head><meta charset=\"utf-8\"><meta name=\"viewport\" content=\"width=device-width,initial-scale=1\"><meta http-equiv=\"Content-Security-Policy\" content=\"default-src 'none'; script-src 'unsafe-inline'; style-src 'unsafe-inline'; font-src data:; img-src data:; connect-src 'none'; base-uri 'none'; form-action 'none'\"><title>commit-miner</title><style>"@
}

pub open spec fn page_data() -> Seq<char> {
    "</style></head><body><div id=\"root\"></div><script id=\"report-data\" type=\"application/json\">"@
}

/// The HTML report: a self-contained page with the stylesheet, the scan's JSON data
/// and the viewer script, under a policy that allows no network access.
pub open spec fn html_report(data: Seq<char>, css: Seq<char>, js: Seq<char>) -> Seq<char> {
    page_head() + css + page_data() + script_safe(data) + "</script><script>"@ + close_safe(js)
        + "</script></body></html>"@
}

fn push_script_safe(out: &mut Vec<char>, data: &str)
    ensures
        final(out)@ == old(out)@ + script_safe(data@),
{
    let v = chars_of(data);
    let mut i: usize = 0;
    assert(v@.take(0) =~= Seq::<char>::empty());
    while i < v.len()
        invariant
            i <= v.len(),
            v@ == data@,
            out@ == old(out)@ + script_safe(v@.take(i as int)),
        decreases v.len() - i,
    {
        assert(v@.take(i + 1).drop_last() =~= v@.take(i as int));
        let c = v[i];
        if c == '<' {
            append_chars(out, "\\u003c");
        } else if c == '>' {
            append_chars(out, "\\u003e");
        } else if c == '&' {
            append_chars(out, "\\u0026");
        } else if c == '\u{2028}' {
            append_chars(out, "\\u2028");
        } else if c == '\u{2029}' {
            append_chars(out, "\\u2029");
        } else {
            out.push(c);
        }
        i = i + 1;
        assert(out@ =~= old(out)@ + script_safe(v@.take(i as int)));
    }
    assert(v@.take(v.len() as int) =~= v@);
}

fn push_close_safe(out: &mut Vec<char>, js: &str)
    ensures
        final(out)@ == old(out)@ + close_safe(js@),
{
    let v = chars_of(js);
    let close = chars_of("</script");
    proof {
        reveal_strlit("</script");
    }
    let mut i: usize = 0;
    assert(v@.skip(0) =~= v@);
    while i < v.len()
        invariant
            i <= v.len(),
            v@ == js@,
            close@ == "</script"@,
            close@.len() == 8,
            out@ + close_safe(v@.skip(i as int)) == old(out)@ + close_safe(js@),
        decreases v.len() - i,
    {
        let ghost before = out@;
        let ghost rest = v@.skip(i as int);
        if matches_at(&v, i, &close) {
            assert(rest.take(8) =~= v@.subrange(i as int, i + 8));
            assert(rest.skip(8) =~= v@.skip(i + 8));
            append_chars(out, "<\\/script");
            i = i + 8;
            assert(out@ + close_safe(v@.skip(i as int)) =~= before + close_safe(rest));
        } else {
            proof {
                if rest.len() >= 8 {
                    assert(rest.take(8) =~= v@.subrange(i as int, i + 8));
                }
            }
            assert(rest.skip(1) =~= v@.skip(i + 1));
            out.push(v[i]);
            i = i + 1;
            assert(out@ + close_safe(v@.skip(i as int)) =~= before + close_safe(rest));
        }
    }
    assert(v@.skip(i as int) =~= Seq::<char>::empty());
    assert(out@ + Seq::<char>::empty() =~= out@);
}

/// The HTML report around the scan's JSON data, with the given stylesheet and
/// viewer script.
pub fn html(data: &str, css: &str, js: &str) -> (r: String)
    ensures
        r@ == html_report(data@, css@, js@),
{
    let mut out: Vec<char> = Vec::new();
    append_chars(&mut out, "<!doctype html><html lang=\"en\"><head><meta charset=\"utf-8\"><meta name=\"viewport\" content=\"width=device-width,initial-scale=1\"><meta http-equiv=\"Content-Security-Policy\" content=\"default-src 'none'; script-src 'unsafe-inline'; style-src 'unsafe-inline'; font-src data:; img-src data:; connect-src 'none'; base-uri 'none'; form-action 'none'\"><title>commit-miner</title><style>");
    append_chars(&mut out, css);
    append_chars(&mut out, "</style></head><body><div id=\"root\"></div><script id=\"report-data\" type=\"application/json\">");
    push_script_safe(&mut out, data);
    append_chars(&mut out, "</script><script>");
    push_close_safe(&mut out, js);
    append_chars(&mut out, "</script></body></html>");
    assert(out@ =~= html_report(data@, css@, js@));
    string_from(&out)
}

/// A scan's report in the chosen format: `csv`, or `html` around the scan's JSON
/// data with the given stylesheet and script.
pub fn render(scan: &Scan, format: &str, taxonomy: &Taxonomy, data: &str, css: &str, js: &str) -> (r:
    Result<String, String>)
    ensures
        format@ == "csv"@ ==> (r matches Ok(s) && s@ == csv_report(*scan, taxonomy.categories@)),
        format@ == "html"@ ==> (r matches Ok(s) && s@ == html_report(data@, css@, js@)),
        format@ != "csv"@ && format@ != "html"@ ==> (r matches Err(m) && m@
            == "Unknown output format"@),
{
    proof {
        reveal_strlit("csv");
        reveal_strlit("html");
        assert("csv"@.len() == 3 && "html"@.len() == 4);
        assert("html"@ != "csv"@);
    }
    if crate::text::str_eq(format, "csv") {
        Ok(csv(scan, taxonomy))
    } else if crate::text::str_eq(format, "html") {
        Ok(html(data, css, js))
    } else {
        Err(String::from_str("Unknown output format"))
    }
}

/// A filtered view's CSV classifies every row against the view's minimum score, not
/// the scan's threshold: two scans with the same results and the same selection give
/// the same report whatever their thresholds, namely each result's fields taken at
/// the selection's minimum; a scan without a selection uses its own threshold.
pub proof fn law_csv_rows_use_the_selection_minimum(a: Scan, b: Scan, cats: Seq<Category>)
    requires
        a.results == b.results,
        a.selection == b.selection,
    ensures
        a.selection is Some ==> csv_report(a, cats) == csv_report(b, cats),
        a.selection matches Some(s) ==> csv_report(a, cats) == join(
            seq![csv_line(csv_header())] + a.results@.map_values(
                |r: ResultRecord| csv_line(csv_fields(r, s.min_probability, cats)),
            ),
            "\r\n"@,
        ) + "\r\n"@,
        a.selection is None ==> csv_report(a, cats) == join(
            seq![csv_line(csv_header())] + a.results@.map_values(
                |r: ResultRecord| csv_line(csv_fields(r, a.summary.options.threshold, cats)),
            ),
            "\r\n"@,
        ) + "\r\n"@,
{
}

} // verus!
