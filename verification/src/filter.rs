//! Parsing of the classification filters. Filters apply only to Jev scores; source
//! and commit-message text are never matched.
use crate::model::{
    Category, Label, ResultRecord, Scan, Taxonomy, family_has, has_score, is_reviewed,
    probability_of, scores_well_formed,
};
use crate::order::{is_stable_descending, stable_descending};
use crate::score::{float_ge, ge, order_key, total_key};
use crate::text::str_eq;
use crate::export::{cwe_list, cwe_names};
use crate::history::strings_view;
use crate::text::{join, join_chars};
use crate::text::{
    append_chars, ascii_lowercase_chars, chars_of, equal_chars, in_words, is_prefix, member,
    parse_unsigned, push_decimal_chars, replace_char, replace_chars, slice_chars, spec_ascii_lowercase,
    spec_parse_unsigned, spec_trim, starts_with, string_from, trim, decimal_chars,
};
use vstd::prelude::*;

verus! {

/// The families and pseudo-families a filter can name.
pub open spec fn family_selectors() -> Seq<&'static str> {
    seq!["security", "bug", "change", "context", "unclassified"]
}

/// The selector a spelling stands for: trimmed, lowercase, `-` read as `_`, with
/// the aliases `security_fix`, `bug_fix` and `insufficient_context`.
pub open spec fn selector_id(s: Seq<char>) -> Seq<char> {
    let id = replace_char(spec_ascii_lowercase(spec_trim(s)), '-', '_');
    if id == "security_fix"@ {
        "security"@
    } else if id == "bug_fix"@ {
        "bug"@
    } else if id == "insufficient_context"@ {
        "context"@
    } else {
        id
    }
}

pub open spec fn has_category_id(cats: Seq<Category>, id: Seq<char>) -> bool {
    exists|k: int| 0 <= k < cats.len() && (#[trigger] cats[k]).id@ == id
}

pub open spec fn has_category_cwe(cats: Seq<Category>, n: u32) -> bool {
    exists|k: int| 0 <= k < cats.len() && (#[trigger] cats[k]).cwe == Some(n)
}

fn find_category_id(cats: &Vec<Category>, id: &[char]) -> (r: bool)
    ensures
        r == has_category_id(cats@, id@),
{
    let mut k: usize = 0;
    while k < cats.len()
        invariant
            k <= cats.len(),
            forall|j: int| 0 <= j < k ==> (#[trigger] cats@[j]).id@ != id@,
        decreases cats.len() - k,
    {
        let c = chars_of(cats[k].id.as_str());
        if equal_chars(&c, id) {
            return true;
        }
        k = k + 1;
    }
    false
}

fn find_category_cwe(cats: &Vec<Category>, n: u32) -> (r: bool)
    ensures
        r == has_category_cwe(cats@, n),
{
    let mut k: usize = 0;
    while k < cats.len()
        invariant
            k <= cats.len(),
            forall|j: int| 0 <= j < k ==> (#[trigger] cats@[j]).cwe != Some(n),
        decreases cats.len() - k,
    {
        if cats[k].cwe == Some(n) {
            return true;
        }
        k = k + 1;
    }
    false
}

fn equal_literal(v: &[char], s: &str) -> (r: bool)
    ensures
        r == (v@ == s@),
{
    let c = chars_of(s);
    equal_chars(v, &c)
}

pub open spec fn unknown_selector_message(s: Seq<char>) -> Seq<char> {
    "Unknown classification '"@ + s + "'. Run `commit-miner categories` for IDs."@
}

/// Reads one `--only` value: a family, `context`, `unclassified` or a category ID.
pub fn selector(s: &str, taxonomy: &Taxonomy) -> (r: Result<String, String>)
    ensures
        ({
            let id = selector_id(s@);
            let known = in_words(id, family_selectors()) || has_category_id(
                taxonomy.categories@,
                id,
            );
            match r {
                Ok(v) => known && v@ == id,
                Err(m) => !known && m@ == unknown_selector_message(s@),
            }
        }),
{
    let raw = chars_of(s);
    let t = trim(&raw);
    let lower = ascii_lowercase_chars(&t);
    let id0 = replace_chars(&lower, '-', '_');
    let id: Vec<char> = if equal_literal(&id0, "security_fix") {
        chars_of("security")
    } else if equal_literal(&id0, "bug_fix") {
        chars_of("bug")
    } else if equal_literal(&id0, "insufficient_context") {
        chars_of("context")
    } else {
        id0
    };
    let families: Vec<&str> = vec!["security", "bug", "change", "context", "unclassified"];
    assert(families@ == family_selectors());
    if member(&id, &families) || find_category_id(&taxonomy.categories, &id) {
        Ok(string_from(&id))
    } else {
        let mut m: Vec<char> = Vec::new();
        append_chars(&mut m, "Unknown classification '");
        append_chars(&mut m, s);
        append_chars(&mut m, "'. Run `commit-miner categories` for IDs.");
        Err(string_from(&m))
    }
}

/// The number part of a `--cwe` value: trimmed and lowercase, past a `cwe-` or
/// `cwe_` prefix.
pub open spec fn cwe_digits(s: Seq<char>) -> Seq<char> {
    let id = spec_ascii_lowercase(spec_trim(s));
    if is_prefix("cwe-"@, id) || is_prefix("cwe_"@, id) {
        id.skip(4)
    } else {
        id
    }
}

pub open spec fn missing_cwe_message(n: u32) -> Seq<char> {
    "CWE-"@ + decimal_chars(n as nat) + " is not in the current Jev taxonomy. Run `commit-miner categories`."@
}

/// Reads one `--cwe` value: a CWE number the taxonomy has, such as `79` or `CWE-79`.
pub fn cwe(s: &str, taxonomy: &Taxonomy) -> (r: Result<u32, String>)
    ensures
        match spec_parse_unsigned(cwe_digits(s@), u32::MAX as nat) {
            None => r matches Err(m) && m@ == "Use a CWE number such as 79 or CWE-79"@,
            Some(n) => if has_category_cwe(taxonomy.categories@, n as u32) {
                r == Ok::<u32, String>(n as u32)
            } else {
                r matches Err(m) && m@ == missing_cwe_message(n as u32)
            },
        },
{
    proof {
        reveal_strlit("cwe-");
        reveal_strlit("cwe_");
    }
    let raw = chars_of(s);
    let t = trim(&raw);
    let id = ascii_lowercase_chars(&t);
    let digits = if starts_with(&id, "cwe-") || starts_with(&id, "cwe_") {
        slice_chars(&id, 4, id.len())
    } else {
        slice_chars(&id, 0, id.len())
    };
    assert(digits@ =~= cwe_digits(s@));
    let number = match parse_unsigned(&digits, u32::MAX as u64) {
        Some(n) => n as u32,
        None => {
            return Err(String::from_str("Use a CWE number such as 79 or CWE-79"));
        },
    };
    if find_category_cwe(&taxonomy.categories, number) {
        Ok(number)
    } else {
        let mut m: Vec<char> = Vec::new();
        append_chars(&mut m, "CWE-");
        push_decimal_chars(&mut m, number as u64);
        append_chars(&mut m, " is not in the current Jev taxonomy. Run `commit-miner categories`.");
        Err(string_from(&m))
    }
}

// ---------------------------------------------------------------------------
// Filtering results
// ---------------------------------------------------------------------------
/// What a filtered view shows: the selectors, the CWEs and the minimum score it
/// applied (a double, as bits), and how many of how many reviewed results matched.
pub struct Selection {
    pub only: Vec<String>,
    pub cwe: Vec<u32>,
    pub min_probability: u64,
    pub matched: usize,
    pub classified: usize,
}

/// Filters on Jev's scores: selectors (`--only`), CWEs (`--cwe`) and a minimum score
/// (a double, as bits) that replaces the scan's threshold.
pub struct Filters {
    pub only: Vec<String>,
    pub cwe: Vec<u32>,
    pub min_probability: Option<u64>,
}

pub open spec fn spec_active(f: Filters) -> bool {
    f.only@.len() > 0 || f.cwe@.len() > 0 || f.min_probability is Some
}

pub open spec fn spec_cutoff(f: Filters, threshold: u64) -> u64 {
    match f.min_probability {
        Some(p) => p,
        None => threshold,
    }
}

/// Some score reached the cutoff: the security or bug question, or a category.
pub open spec fn classified(r: ResultRecord, c: u64, cats: Seq<Category>) -> bool {
    has_score(r, "security_fix"@, c) || has_score(r, "bug_fix"@, c) || exists|k: int|
        0 <= k < cats.len() && has_score(r, (#[trigger] cats[k]).id@, c)
}

/// What one selector asks of a result.
pub open spec fn selects(r: ResultRecord, c: u64, cats: Seq<Category>, id: Seq<char>) -> bool {
    if id == "security"@ {
        has_score(r, "security_fix"@, c) || family_has(r, c, cats, "security"@)
    } else if id == "bug"@ {
        has_score(r, "bug_fix"@, c) || family_has(r, c, cats, "bug"@)
    } else if id == "change"@ {
        family_has(r, c, cats, "change"@)
    } else if id == "context"@ {
        has_score(r, "insufficient_context"@, c)
    } else if id == "unclassified"@ {
        !classified(r, c, cats)
    } else {
        has_score(r, id, c)
    }
}

/// A result some category of the given CWEs scored at least the cutoff for.
pub open spec fn cwe_selected(r: ResultRecord, c: u64, cats: Seq<Category>, cwes: Seq<u32>) -> bool {
    exists|k: int|
        0 <= k < cats.len() && ((#[trigger] cats[k]).cwe matches Some(n) && cwes.contains(n))
            && has_score(r, cats[k].id@, c)
}

/// A result the filters keep. One not reviewed shows only without filters; a
/// reviewed one needs a selector to hold (if any is given), a CWE to hold (if any is
/// given), and with only a minimum score, some score at least that minimum.
pub open spec fn spec_matches(f: Filters, r: ResultRecord, threshold: u64, cats: Seq<Category>) -> bool {
    if !is_reviewed(r) {
        !spec_active(f)
    } else {
        let c = spec_cutoff(f, threshold);
        let selected = f.only@.len() == 0 || exists|k: int|
            0 <= k < f.only@.len() && selects(r, c, cats, (#[trigger] f.only@[k])@);
        let cwes = f.cwe@.len() == 0 || cwe_selected(r, c, cats, f.cwe@);
        let minimum = f.min_probability is None || f.only@.len() > 0 || f.cwe@.len() > 0
            || classified(r, c, cats) || has_score(r, "insufficient_context"@, c);
        selected && cwes && minimum
    }
}

/// The categories scored at least `c`, with their scores, in taxonomy order.
pub open spec fn candidate_labels(r: ResultRecord, c: u64, cats: Seq<Category>) -> Seq<
    (Seq<char>, u64),
>
    decreases cats.len(),
{
    if cats.len() == 0 {
        seq![]
    } else {
        let k = cats.last();
        candidate_labels(r, c, cats.drop_last()) + match probability_of(r, k.id@) {
            Some(p) => if float_ge(p, c) {
                seq![(k.id@, p)]
            } else {
                seq![]
            },
            None => seq![],
        }
    }
}

pub open spec fn label_keys(ls: Seq<(Seq<char>, u64)>) -> Seq<i128> {
    ls.map_values(|l: (Seq<char>, u64)| order_key(l.1) as i128)
}

pub open spec fn labels_view(ls: Seq<Label>) -> Seq<(Seq<char>, u64)> {
    ls.map_values(|l: Label| (l.id@, l.probability))
}

/// `ls` lists the candidates by descending score, equal scores in taxonomy order.
pub open spec fn ranked_labels(ls: Seq<(Seq<char>, u64)>, candidates: Seq<(Seq<char>, u64)>) -> bool {
    exists|o: Seq<usize>|
        #![trigger is_stable_descending(label_keys(candidates), o)]
        is_stable_descending(label_keys(candidates), o) && ls == o.map_values(
            |j: usize| candidates[j as int],
        )
}

/// The categories of `r` scored at least `cutoff`, highest score first.
pub fn scored_labels(r: &ResultRecord, cutoff: u64, taxonomy: &Taxonomy) -> (out: Vec<Label>)
    ensures
        ranked_labels(labels_view(out@), candidate_labels(*r, cutoff, taxonomy.categories@)),
{
    let cats = &taxonomy.categories;
    let ghost cands = candidate_labels(*r, cutoff, cats@);
    let mut found: Vec<Label> = Vec::new();
    let mut k: usize = 0;
    assert(cats@.take(0) =~= Seq::<Category>::empty());
    while k < cats.len()
        invariant
            k <= cats.len(),
            labels_view(found@) == candidate_labels(*r, cutoff, cats@.take(k as int)),
        decreases cats.len() - k,
    {
        assert(cats@.take(k + 1).drop_last() =~= cats@.take(k as int));
        assert(cats@.take(k + 1).last() == cats@[k as int]);
        let ghost before = found@;
        match r.probability(cats[k].id.as_str()) {
            Some(p) => {
                if ge(p, cutoff) {
                    found.push(Label { id: cats[k].id.clone(), probability: p });
                    assert(labels_view(found@) =~= labels_view(before).push((cats@[k as int].id@, p)));
                }
            },
            None => {},
        }
        k = k + 1;
    }
    assert(cats@.take(cats.len() as int) =~= cats@);
    let mut keys: Vec<i128> = Vec::new();
    let mut j: usize = 0;
    while j < found.len()
        invariant
            j <= found.len(),
            labels_view(found@) == cands,
            keys@ == label_keys(cands).take(j as int),
        decreases found.len() - j,
    {
        keys.push(total_key(found[j].probability) as i128);
        assert(keys@ =~= label_keys(cands).take(j + 1));
        j = j + 1;
    }
    assert(label_keys(cands).take(found.len() as int) =~= label_keys(cands));
    let order = stable_descending(&keys);
    let mut out: Vec<Label> = Vec::new();
    let mut q: usize = 0;
    while q < order.len()
        invariant
            q <= order.len(),
            order.len() == found.len(),
            labels_view(found@) == cands,
            forall|x: int| 0 <= x < order.len() ==> (#[trigger] order@[x]) < found.len(),
            labels_view(out@) == order@.take(q as int).map_values(|x: usize| cands[x as int]),
        decreases order.len() - q,
    {
        let ghost before = out@;
        let l = &found[order[q]];
        out.push(Label { id: l.id.clone(), probability: l.probability });
        proof {
            assert(order@.take(q + 1) =~= order@.take(q as int).push(order@[q as int]));
            assert(labels_view(out@) =~= labels_view(before).push(cands[order@[q as int] as int]));
        }
        q = q + 1;
        assert(labels_view(out@) =~= order@.take(q as int).map_values(|x: usize| cands[x as int]));
    }
    assert(order@.take(order.len() as int) =~= order@);
    assert(is_stable_descending(label_keys(cands), order@));
    out
}

fn clone_strings(v: &Vec<String>) -> (r: Vec<String>)
    ensures
        r@.len() == v@.len(),
        forall|i: int| 0 <= i < v@.len() ==> (#[trigger] r@[i])@ == v@[i]@,
{
    let mut out: Vec<String> = Vec::new();
    let mut i: usize = 0;
    while i < v.len()
        invariant
            i <= v.len(),
            out@.len() == i,
            forall|j: int| 0 <= j < i ==> (#[trigger] out@[j])@ == v@[j]@,
        decreases v.len() - i,
    {
        out.push(v[i].clone());
        i = i + 1;
    }
    out
}

fn clone_numbers(v: &Vec<u32>) -> (r: Vec<u32>)
    ensures
        r@ == v@,
{
    let mut out: Vec<u32> = Vec::new();
    let mut i: usize = 0;
    while i < v.len()
        invariant
            i <= v.len(),
            out@ == v@.take(i as int),
        decreases v.len() - i,
    {
        out.push(v[i]);
        i = i + 1;
        assert(out@ =~= v@.take(i as int));
    }
    assert(v@.take(v.len() as int) =~= v@);
    out
}

/// `r` and `s` agree but for the categories found.
pub open spec fn same_but_categories(r: ResultRecord, s: ResultRecord) -> bool {
    &&& r.commit == s.commit
    &&& r.status == s.status
    &&& r.evaluated == s.evaluated
    &&& r.total == s.total
    &&& r.probabilities == s.probabilities
    &&& r.evidence == s.evidence
    &&& r.warnings == s.warnings
    &&& r.aggregation == s.aggregation
    &&& r.review_coverage == s.review_coverage
}

/// The results the filters keep, in order.
pub open spec fn kept(f: Filters, rs: Seq<ResultRecord>, threshold: u64, cats: Seq<Category>) -> Seq<
    ResultRecord,
>
    decreases rs.len(),
{
    if rs.len() == 0 {
        seq![]
    } else if spec_matches(f, rs.last(), threshold, cats) {
        kept(f, rs.drop_last(), threshold, cats).push(rs.last())
    } else {
        kept(f, rs.drop_last(), threshold, cats)
    }
}

/// What a filter shows of itself: the named categories and families, the named
/// weaknesses as `CWE-n`, and, when any filter is set, the minimum score as a whole
/// percentage; the parts joined by ` · `.
pub open spec fn description_parts(f: Filters, cutoff_percent: Seq<char>) -> Seq<Seq<char>> {
    let named: Seq<Seq<char>> = if f.only@.len() > 0 {
        seq![join(strings_view(f.only@), ", "@)]
    } else {
        seq![]
    };
    let weaknesses: Seq<Seq<char>> = if f.cwe@.len() > 0 {
        seq![join(cwe_names(f.cwe@), ", "@)]
    } else {
        seq![]
    };
    let minimum: Seq<Seq<char>> = if spec_active(f) {
        seq!["≥ "@ + cutoff_percent + "%"@]
    } else {
        seq![]
    };
    named + weaknesses + minimum
}

pub open spec fn spec_description(f: Filters, cutoff_percent: Seq<char>) -> Seq<char> {
    join(description_parts(f, cutoff_percent), " · "@)
}

/// Every result the filters keep is one of the results they were given.
proof fn lemma_kept_from(f: Filters, rs: Seq<ResultRecord>, threshold: u64, cats: Seq<Category>)
    ensures
        forall|j: int| 0 <= j < kept(f, rs, threshold, cats).len() ==> exists|x: int|
            0 <= x < rs.len() && rs[x] == #[trigger] kept(f, rs, threshold, cats)[j],
    decreases rs.len(),
{
    if rs.len() > 0 {
        let prev = rs.drop_last();
        lemma_kept_from(f, prev, threshold, cats);
        let k0 = kept(f, prev, threshold, cats);
        let k = kept(f, rs, threshold, cats);
        assert forall|j: int| 0 <= j < k.len() implies exists|x: int|
            0 <= x < rs.len() && rs[x] == #[trigger] k[j] by {
            if j < k0.len() {
                assert(k[j] == k0[j]);
                let x = choose|x: int| 0 <= x < prev.len() && prev[x] == k0[j];
                assert(rs[x] == prev[x]);
            } else {
                assert(k[j] == rs[rs.len() - 1]);
            }
        }
    }
}

impl Filters {
    pub fn active(&self) -> (r: bool)
        ensures
            r == spec_active(*self),
    {
        self.only.len() > 0 || self.cwe.len() > 0 || self.min_probability.is_some()
    }

    /// The filters as one line; `cutoff_percent` is the minimum score written as a
    /// whole percentage.
    pub fn description(&self, cutoff_percent: &str) -> (r: String)
        ensures
            r@ == spec_description(*self, cutoff_percent@),
    {
        let mut parts: Vec<Vec<char>> = Vec::new();
        let ghost want = description_parts(*self, cutoff_percent@);
        if self.only.len() > 0 {
            let mut names: Vec<Vec<char>> = Vec::new();
            let mut i: usize = 0;
            while i < self.only.len()
                invariant
                    i <= self.only.len(),
                    names@.map_values(|l: Vec<char>| l@) == strings_view(self.only@).take(i as int),
                decreases self.only.len() - i,
            {
                let c = chars_of(self.only[i].as_str());
                assert(c@ == strings_view(self.only@)[i as int]);
                let ghost before = names@.map_values(|l: Vec<char>| l@);
                names.push(c);
                assert(names@.map_values(|l: Vec<char>| l@) =~= before.push(c@));
                assert(names@.map_values(|l: Vec<char>| l@) =~= strings_view(self.only@).take(
                    i + 1,
                ));
                i = i + 1;
            }
            assert(strings_view(self.only@).take(self.only.len() as int) =~= strings_view(
                self.only@,
            ));
            parts.push(join_chars(&names, ", "));
        }
        if self.cwe.len() > 0 {
            parts.push(cwe_list(&self.cwe, ", "));
        }
        if self.active() {
            let mut m: Vec<char> = Vec::new();
            append_chars(&mut m, "≥ ");
            append_chars(&mut m, cutoff_percent);
            append_chars(&mut m, "%");
            parts.push(m);
        }
        assert(parts@.map_values(|l: Vec<char>| l@) =~= want);
        let joined = join_chars(&parts, " · ");
        string_from(&joined)
    }

    /// The minimum score: the filter's own, else the scan's threshold.
    pub fn cutoff(&self, threshold: u64) -> (r: u64)
        ensures
            r == spec_cutoff(*self, threshold),
    {
        match self.min_probability {
            Some(p) => p,
            None => threshold,
        }
    }

    fn any_category(r: &ResultRecord, c: u64, cats: &Vec<Category>) -> (b: bool)
        ensures
            b == exists|k: int| 0 <= k < cats@.len() && has_score(*r, (#[trigger] cats@[k]).id@, c),
    {
        let mut k: usize = 0;
        while k < cats.len()
            invariant
                k <= cats.len(),
                forall|j: int| 0 <= j < k ==> !has_score(*r, (#[trigger] cats@[j]).id@, c),
            decreases cats.len() - k,
        {
            if r.has(cats[k].id.as_str(), c) {
                return true;
            }
            k = k + 1;
        }
        false
    }

    fn family(r: &ResultRecord, c: u64, cats: &Vec<Category>, family: &str) -> (b: bool)
        ensures
            b == family_has(*r, c, cats@, family@),
    {
        let mut k: usize = 0;
        while k < cats.len()
            invariant
                k <= cats.len(),
                forall|j: int|
                    0 <= j < k ==> !((#[trigger] cats@[j]).family@ == family@ && has_score(
                        *r,
                        cats@[j].id@,
                        c,
                    )),
            decreases cats.len() - k,
        {
            if str_eq(cats[k].family.as_str(), family) && r.has(cats[k].id.as_str(), c) {
                return true;
            }
            k = k + 1;
        }
        false
    }

    fn is_classified(r: &ResultRecord, c: u64, cats: &Vec<Category>) -> (b: bool)
        ensures
            b == classified(*r, c, cats@),
    {
        r.has("security_fix", c) || r.has("bug_fix", c) || Self::any_category(r, c, cats)
    }

    fn selects(r: &ResultRecord, c: u64, cats: &Vec<Category>, id: &str) -> (b: bool)
        ensures
            b == selects(*r, c, cats@, id@),
    {
        if str_eq(id, "security") {
            r.has("security_fix", c) || Self::family(r, c, cats, "security")
        } else if str_eq(id, "bug") {
            r.has("bug_fix", c) || Self::family(r, c, cats, "bug")
        } else if str_eq(id, "change") {
            Self::family(r, c, cats, "change")
        } else if str_eq(id, "context") {
            r.has("insufficient_context", c)
        } else if str_eq(id, "unclassified") {
            !Self::is_classified(r, c, cats)
        } else {
            r.has(id, c)
        }
    }

    fn cwe_selected(&self, r: &ResultRecord, c: u64, cats: &Vec<Category>) -> (b: bool)
        ensures
            b == cwe_selected(*r, c, cats@, self.cwe@),
    {
        let mut k: usize = 0;
        while k < cats.len()
            invariant
                k <= cats.len(),
                forall|j: int|
                    0 <= j < k ==> !(((#[trigger] cats@[j]).cwe matches Some(n) && self.cwe@.contains(
                        n,
                    )) && has_score(*r, cats@[j].id@, c)),
            decreases cats.len() - k,
        {
            match cats[k].cwe {
                Some(n) => {
                    let mut listed = false;
                    let mut i: usize = 0;
                    while i < self.cwe.len()
                        invariant
                            i <= self.cwe.len(),
                            listed == exists|x: int| 0 <= x < i && self.cwe@[x] == n,
                        decreases self.cwe.len() - i,
                    {
                        if self.cwe[i] == n {
                            listed = true;
                        }
                        i = i + 1;
                    }
                    if listed && r.has(cats[k].id.as_str(), c) {
                        return true;
                    }
                },
                None => {},
            }
            k = k + 1;
        }
        false
    }

    /// Whether a result passes the filters, held against `threshold` unless the
    /// filters give their own minimum.
    pub fn matches(&self, r: &ResultRecord, threshold: u64, taxonomy: &Taxonomy) -> (b: bool)
        ensures
            b == spec_matches(*self, *r, threshold, taxonomy.categories@),
    {
        let cats = &taxonomy.categories;
        if !r.reviewed() {
            return !self.active();
        }
        let c = self.cutoff(threshold);
        let mut selected = self.only.len() == 0;
        let mut i: usize = 0;
        while !selected && i < self.only.len()
            invariant
                i <= self.only.len(),
                selected ==> (self.only@.len() == 0 || exists|k: int|
                    0 <= k < self.only@.len() && selects(*r, c, cats@, (#[trigger] self.only@[k])@)),
                !selected ==> self.only@.len() > 0 && forall|k: int|
                    0 <= k < i ==> !selects(*r, c, cats@, (#[trigger] self.only@[k])@),
            decreases self.only.len() - i,
        {
            if Self::selects(r, c, cats, self.only[i].as_str()) {
                selected = true;
            }
            i = i + 1;
        }
        let cwes = self.cwe.len() == 0 || self.cwe_selected(r, c, cats);
        let minimum = self.min_probability.is_none() || self.only.len() > 0 || self.cwe.len() > 0
            || Self::is_classified(r, c, cats) || r.has("insufficient_context", c);
        selected && cwes && minimum
    }

    /// The scan as the filters show it: without filters, unchanged; otherwise only the
    /// matching results, each with its categories replaced by those scored at least the
    /// cutoff (highest first), and the selection recorded.
    pub fn apply(&self, scan: Scan, taxonomy: &Taxonomy) -> (r: Scan)
        ensures
            !spec_active(*self) ==> r == scan,
            spec_active(*self) ==> {
                let t = scan.summary.options.threshold;
                let c = spec_cutoff(*self, t);
                let cats = taxonomy.categories@;
                let k = kept(*self, scan.results@, t, cats);
                &&& r.summary == scan.summary
                &&& r.events == scan.events
                &&& r.owner_pid == scan.owner_pid
                &&& r.error == scan.error
                &&& r.results@.len() == k.len()
                &&& forall|j: int|
                    0 <= j < k.len() ==> same_but_categories(#[trigger] r.results@[j], k[j])
                        && ranked_labels(
                        labels_view(r.results@[j].categories@),
                        candidate_labels(k[j], c, cats),
                    )
                &&& (forall|i: int| 0 <= i < scan.results@.len() ==> scores_well_formed(#[trigger] scan.results@[i]))
                    ==> forall|j: int| 0 <= j < r.results@.len() ==> scores_well_formed(#[trigger] r.results@[j])
                &&& r.selection is Some
                &&& r.selection matches Some(s) && s.min_probability == c && s.matched
                    == k.len() && s.classified == scan.results@.len() && s.cwe@ == self.cwe@
                    && s.only@.len() == self.only@.len() && forall|x: int|
                    0 <= x < self.only@.len() ==> (#[trigger] s.only@[x])@ == self.only@[x]@
            },
    {
        if !self.active() {
            return scan;
        }
        let t = scan.summary.options.threshold;
        let c = self.cutoff(t);
        let ghost cats = taxonomy.categories@;
        let ghost all = scan.results@;
        let Scan { selection: _, summary, results, events, owner_pid, error } = scan;
        let classified = results.len();
        let mut rest = results;
        let mut out: Vec<ResultRecord> = Vec::new();
        let mut i: usize = 0;
        assert(all.take(0) =~= Seq::<ResultRecord>::empty());
        assert(all.skip(0) =~= all);
        while rest.len() > 0
            invariant
                i + rest@.len() == all.len(),
                all.len() == classified,
                rest@ == all.skip(i as int),
                cats == taxonomy.categories@,
                c == spec_cutoff(*self, t),
                out@.len() == kept(*self, all.take(i as int), t, cats).len(),
                forall|j: int|
                    0 <= j < out@.len() ==> same_but_categories(
                        #[trigger] out@[j],
                        kept(*self, all.take(i as int), t, cats)[j],
                    ) && ranked_labels(
                        labels_view(out@[j].categories@),
                        candidate_labels(kept(*self, all.take(i as int), t, cats)[j], c, cats),
                    ),
            decreases rest.len(),
        {
            let mut r = rest.remove(0);
            let ghost ki = kept(*self, all.take(i as int), t, cats);
            proof {
                assert(r == all[i as int]);
                assert(all.take(i + 1).drop_last() =~= all.take(i as int));
                assert(all.take(i + 1).last() == all[i as int]);
                assert(rest@ =~= all.skip(i + 1));
            }
            if self.matches(&r, t, taxonomy) {
                let labels = scored_labels(&r, c, taxonomy);
                let ghost unfiltered = r;
                r.categories = labels;
                assert(same_but_categories(r, unfiltered));
                let ghost out_before = out@;
                out.push(r);
                proof {
                    let kn = kept(*self, all.take(i + 1), t, cats);
                    assert(kn == ki.push(unfiltered));
                    assert forall|j: int| 0 <= j < out@.len() implies same_but_categories(
                        #[trigger] out@[j],
                        kn[j],
                    ) && ranked_labels(
                        labels_view(out@[j].categories@),
                        candidate_labels(kn[j], c, cats),
                    ) by {
                        if j < out@.len() - 1 {
                            assert(out@[j] == out_before[j]);
                        }
                    }
                }
            }
            i = i + 1;
        }
        assert(all.take(i as int) =~= all);
        proof {
            lemma_kept_from(*self, all, t, cats);
            let k = kept(*self, all, t, cats);
            if forall|x: int| 0 <= x < all.len() ==> scores_well_formed(#[trigger] all[x]) {
                assert forall|j: int| 0 <= j < out@.len() implies scores_well_formed(#[trigger] out@[j]) by {
                    assert(same_but_categories(out@[j], k[j]));
                    let x = choose|x: int| 0 <= x < all.len() && all[x] == k[j];
                    assert(scores_well_formed(all[x]));
                }
            }
        }
        let matched = out.len();
        let selection = Selection {
            only: clone_strings(&self.only),
            cwe: clone_numbers(&self.cwe),
            min_probability: c,
            matched,
            classified,
        };
        Scan { selection: Some(selection), summary, results: out, events, owner_pid, error }
    }
}

/// Two results that agree in status, scores and categories found.
pub open spec fn same_scores(r1: ResultRecord, r2: ResultRecord) -> bool {
    r1.status == r2.status && r1.probabilities == r2.probabilities && r1.categories
        == r2.categories
}

/// Filters apply only to Jev's scores: results that differ only in their commit,
/// message, evidence or warnings are kept or dropped alike.
pub proof fn law_filters_read_only_scores(
    f: Filters,
    r1: ResultRecord,
    r2: ResultRecord,
    threshold: u64,
    cats: Seq<Category>,
)
    requires
        same_scores(r1, r2),
    ensures
        spec_matches(f, r1, threshold, cats) == spec_matches(f, r2, threshold, cats),
{
    assert forall|id: Seq<char>| probability_of(r1, id) == probability_of(r2, id) by {}
}

/// The classification shown first comes from the status, the scores, the categories
/// found and the review coverage alone, never from the commit's text.
pub proof fn law_classification_reads_only_scores(
    r1: ResultRecord,
    r2: ResultRecord,
    threshold: u64,
    cats: Seq<Category>,
)
    requires
        same_scores(r1, r2),
        r1.review_coverage == r2.review_coverage,
    ensures
        crate::model::classification(r1, threshold, cats) == crate::model::classification(
            r2,
            threshold,
            cats,
        ),
{
    assert forall|id: Seq<char>| probability_of(r1, id) == probability_of(r2, id) by {}
    lemma_cwes_agree(r1, r2, threshold, cats);
    lemma_best_agrees(r1, r2, threshold, cats);
}

proof fn lemma_cwes_agree(r1: ResultRecord, r2: ResultRecord, t: u64, cats: Seq<Category>)
    requires
        same_scores(r1, r2),
    ensures
        crate::model::cwes_of(r1, t, cats) == crate::model::cwes_of(r2, t, cats),
    decreases cats.len(),
{
    if cats.len() > 0 {
        lemma_cwes_agree(r1, r2, t, cats.drop_last());
    }
}

proof fn lemma_best_agrees(r1: ResultRecord, r2: ResultRecord, t: u64, cats: Seq<Category>)
    requires
        same_scores(r1, r2),
    ensures
        crate::model::best_change(r1, t, cats) == crate::model::best_change(r2, t, cats),
    decreases cats.len(),
{
    if cats.len() > 0 {
        lemma_best_agrees(r1, r2, t, cats.drop_last());
    }
}

/// A CWE filter keeps only results that some category of a listed CWE scored at
/// least the filter's cutoff (its own minimum, else the scan's threshold); with no
/// category filter besides, it keeps every reviewed result that such a category
/// scored that high.
pub proof fn law_cwe_filters_hold_the_cutoff(f: Filters, r: ResultRecord, threshold: u64, cats: Seq<Category>)
    requires
        f.cwe@.len() > 0,
    ensures
        spec_matches(f, r, threshold, cats) ==> exists|k: int|
            0 <= k < cats.len() && (#[trigger] cats[k]).cwe is Some && f.cwe@.contains(
                cats[k].cwe->0,
            ) && has_score(
                r,
                cats[k].id@,
                match f.min_probability {
                    Some(p) => p,
                    None => threshold,
                },
            ),
        f.only@.len() == 0 && (r.status@ == "complete"@ || r.status@ == "partial"@) && (exists|k: int|
            0 <= k < cats.len() && (#[trigger] cats[k]).cwe is Some && f.cwe@.contains(
                cats[k].cwe->0,
            ) && has_score(
                r,
                cats[k].id@,
                match f.min_probability {
                    Some(p) => p,
                    None => threshold,
                },
            )) ==> spec_matches(f, r, threshold, cats),
{
}

} // verus!
