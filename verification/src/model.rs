//! The records a scan works on: commits, diff lines, evidence sections and the
//! classification taxonomy.
use crate::cost::CostEstimate;
use crate::filter::Selection;
use crate::score::{float_ge, ge, order_key, total_key};
use crate::text::str_eq;
use vstd::prelude::*;

pub use crate::json::hash;

verus! {

/// A JSON value recorded as a scan event; carried through unread.
#[verifier::external_type_specification]
#[verifier::external_body]
pub struct ExJsonValue(serde_json::Value);

/// What a scan was asked to do. The review threshold is an IEEE 754 double, held as
/// its bit pattern (`f64::to_bits`).
pub struct Options {
    pub source: String,
    pub commit: Option<String>,
    pub limit: Option<usize>,
    pub since: Option<String>,
    pub until: Option<String>,
    pub first_parent: bool,
    pub threshold: u64,
    pub concurrency: usize,
    pub cache: bool,
}

pub struct Commit {
    pub sha: String,
    pub parents: Vec<String>,
    pub date: String,
    pub author: String,
    pub message: String,
    pub committed_at: String,
    pub files: Vec<String>,
    pub merge: bool,
    pub excluded_files: usize,
}

/// One line of a diff: its kind (`added`, `removed`, `context` or `meta`), its text
/// and its line numbers before and after the change.
pub struct DiffLine {
    pub kind: String,
    pub text: String,
    pub old_line: Option<usize>,
    pub new_line: Option<usize>,
}

pub struct LineView {
    pub kind: Seq<char>,
    pub text: Seq<char>,
    pub old_line: Option<usize>,
    pub new_line: Option<usize>,
}

impl View for DiffLine {
    type V = LineView;

    open spec fn view(&self) -> LineView {
        LineView {
            kind: self.kind@,
            text: self.text@,
            old_line: self.old_line,
            new_line: self.new_line,
        }
    }
}

impl DiffLine {
    pub fn duplicate(&self) -> (r: DiffLine)
        ensures
            r@ == self@,
    {
        DiffLine {
            kind: self.kind.clone(),
            text: self.text.clone(),
            old_line: self.old_line,
            new_line: self.new_line,
        }
    }
}

pub open spec fn lines_view(lines: Seq<DiffLine>) -> Seq<LineView> {
    lines.map_values(|l: DiffLine| l@)
}

/// A section of one file's change (or of commit metadata) sent for review.
pub struct Evidence {
    pub id: String,
    pub sha: String,
    pub path: String,
    pub header: String,
    pub lines: Vec<DiffLine>,
    pub part: usize,
    pub parts: usize,
}

pub struct EvidenceView {
    pub id: Seq<char>,
    pub sha: Seq<char>,
    pub path: Seq<char>,
    pub header: Seq<char>,
    pub lines: Seq<LineView>,
    pub part: usize,
    pub parts: usize,
}

impl View for Evidence {
    type V = EvidenceView;

    open spec fn view(&self) -> EvidenceView {
        EvidenceView {
            id: self.id@,
            sha: self.sha@,
            path: self.path@,
            header: self.header@,
            lines: lines_view(self.lines@),
            part: self.part,
            parts: self.parts,
        }
    }
}

/// One classification: its ID, label, family (`security`, `bug` or `change`),
/// description and, for a weakness, its CWE number.
pub struct Category {
    pub id: String,
    pub label: String,
    pub family: String,
    pub description: String,
    pub cwe: Option<u32>,
}

/// The classifications a scan asks about, with the core questions by ID.
pub struct Taxonomy {
    pub categories: Vec<Category>,
    pub core_questions: Vec<(String, String)>,
}

/// One section of evidence with the scores Jev gave it. Scores are IEEE 754 doubles
/// held as bit patterns.
pub struct Segment {
    pub evidence: Evidence,
    pub probabilities: Vec<(String, u64)>,
    pub cached: bool,
    pub model: String,
}

/// A category with its score.
pub struct Label {
    pub id: String,
    pub probability: u64,
}

/// The outcome for one commit: its status (`pending`, `complete`, `partial` or
/// `failed`), the sections reviewed of all, the scores by ID, the categories found,
/// the evidence and warnings.
pub struct ResultRecord {
    pub commit: Commit,
    pub status: String,
    pub evaluated: usize,
    pub total: usize,
    pub probabilities: Vec<(String, u64)>,
    pub categories: Vec<Label>,
    pub evidence: Vec<Segment>,
    pub warnings: Vec<String>,
    pub aggregation: String,
    pub review_coverage: String,
}

/// How far a scan has come. Percent, rate and elapsed time are IEEE 754 doubles held
/// as bit patterns.
pub struct Progress {
    pub phase: String,
    pub done: usize,
    pub total: usize,
    pub percent: u64,
    pub commits: usize,
    pub classified: usize,
    pub calls: usize,
    pub cached: usize,
    pub skipped: usize,
    pub failed: usize,
    pub metadata_only: usize,
    pub excluded_changes: usize,
    pub excluded_commits: usize,
    pub bugs: usize,
    pub security: usize,
    pub requests_per_second: u64,
    pub elapsed_seconds: u64,
    pub active: usize,
    pub sections: usize,
    pub reviewed_sections: usize,
    pub input_tokens: u64,
    pub output_tokens: u64,
    pub cost: Option<CostEstimate>,
}

/// The progress of a scan that has not started: preparing its history, every count
/// zero (the doubles positive zero), no cost yet.
pub open spec fn is_initial(r: Progress) -> bool {
    &&& r.phase@ == "Preparing history"@
    &&& r.done == 0 && r.total == 0 && r.percent == 0 && r.commits == 0
    &&& r.classified == 0 && r.calls == 0 && r.cached == 0 && r.skipped == 0
    &&& r.failed == 0 && r.metadata_only == 0 && r.excluded_changes == 0
    &&& r.excluded_commits == 0 && r.bugs == 0 && r.security == 0
    &&& r.requests_per_second == 0 && r.elapsed_seconds == 0 && r.active == 0
    &&& r.sections == 0 && r.reviewed_sections == 0 && r.input_tokens == 0
    &&& r.output_tokens == 0 && r.cost is None
}

impl Default for Progress {
    fn default() -> (r: Progress)
        ensures
            is_initial(r),
    {
        Progress {
            phase: String::from_str("Preparing history"),
            done: 0,
            total: 0,
            percent: 0,
            commits: 0,
            classified: 0,
            calls: 0,
            cached: 0,
            skipped: 0,
            failed: 0,
            metadata_only: 0,
            excluded_changes: 0,
            excluded_commits: 0,
            bugs: 0,
            security: 0,
            requests_per_second: 0,
            elapsed_seconds: 0,
            active: 0,
            sections: 0,
            reviewed_sections: 0,
            input_tokens: 0,
            output_tokens: 0,
            cost: None,
        }
    }
}

/// A scan's identity, status, options, start time and progress.
pub struct Summary {
    pub id: String,
    pub status: String,
    pub options: Options,
    pub started: String,
    pub progress: Progress,
}

/// A saved scan: its summary, its results, the events it recorded, the process that
/// runs it and the error that ended it; a filtered view also tells its selection.
pub struct Scan {
    pub selection: Option<Selection>,
    pub summary: Summary,
    pub results: Vec<ResultRecord>,
    pub events: Vec<serde_json::Value>,
    pub owner_pid: u32,
    pub error: Option<String>,
}

/// No ID occurs twice among the scores: they are a map from ID to score.
pub open spec fn scores_unique(ps: Seq<(String, u64)>) -> bool {
    forall|a: int, b: int| 0 <= a < b < ps.len() ==> (#[trigger] ps[a]).0@ != (#[trigger] ps[b]).0@
}

/// A result's scores, and the scores of each of its sections, name each ID once.
pub open spec fn scores_well_formed(r: ResultRecord) -> bool {
    &&& scores_unique(r.probabilities@)
    &&& forall|i: int| 0 <= i < r.evidence@.len() ==> scores_unique(#[trigger] r.evidence@[i].probabilities@)
}

/// The score of `id` among `ps`: the first entry with that ID.
pub open spec fn score_lookup(ps: Seq<(String, u64)>, id: Seq<char>) -> Option<u64>
    decreases ps.len(),
{
    if ps.len() == 0 {
        None
    } else if ps[0].0@ == id {
        Some(ps[0].1)
    } else {
        score_lookup(ps.skip(1), id)
    }
}

/// Scores that name each ID once answer for an ID with that ID's own score, wherever
/// it stands among them.
pub proof fn law_scores_are_found_by_id(ps: Seq<(String, u64)>, i: int)
    requires
        scores_unique(ps),
        0 <= i < ps.len(),
    ensures
        score_lookup(ps, ps[i].0@) == Some(ps[i].1),
    decreases i,
{
    if i > 0 {
        let rest = ps.skip(1);
        assert forall|a: int, b: int| 0 <= a < b < rest.len() implies (#[trigger] rest[a]).0@
            != (#[trigger] rest[b]).0@ by {
            assert(rest[a] == ps[a + 1] && rest[b] == ps[b + 1]);
        }
        assert(ps[0].0@ != ps[i].0@) by {
            assert(ps[0] == ps[0] && ps[i] == ps[i]);
        }
        law_scores_are_found_by_id(rest, i - 1);
        assert(rest[i - 1] == ps[i]);
    }
}

pub open spec fn label_lookup(ls: Seq<Label>, id: Seq<char>) -> Option<u64>
    decreases ls.len(),
{
    if ls.len() == 0 {
        None
    } else if ls[0].id@ == id {
        Some(ls[0].probability)
    } else {
        label_lookup(ls.skip(1), id)
    }
}

/// The score of `id`: from the scores, else from the categories found.
pub open spec fn probability_of(r: ResultRecord, id: Seq<char>) -> Option<u64> {
    match score_lookup(r.probabilities@, id) {
        Some(p) => Some(p),
        None => label_lookup(r.categories@, id),
    }
}

/// `id` scored at least `t`.
pub open spec fn has_score(r: ResultRecord, id: Seq<char>, t: u64) -> bool {
    probability_of(r, id) matches Some(p) && float_ge(p, t)
}

pub open spec fn is_reviewed(r: ResultRecord) -> bool {
    r.status@ == "complete"@ || r.status@ == "partial"@
}

/// The CWEs of the categories scored at least `t`, in taxonomy order.
pub open spec fn cwes_of(r: ResultRecord, t: u64, cats: Seq<Category>) -> Seq<u32>
    decreases cats.len(),
{
    if cats.len() == 0 {
        seq![]
    } else {
        let c = cats.last();
        cwes_of(r, t, cats.drop_last()) + match c.cwe {
            Some(n) => if has_score(r, c.id@, t) {
                seq![n]
            } else {
                seq![]
            },
            None => seq![],
        }
    }
}

/// Some category of `family` scored at least `t`.
pub open spec fn family_has(r: ResultRecord, t: u64, cats: Seq<Category>, family: Seq<char>) -> bool {
    exists|k: int|
        0 <= k < cats.len() && (#[trigger] cats[k]).family@ == family && has_score(r, cats[k].id@, t)
}

pub open spec fn change_candidate(r: ResultRecord, t: u64, c: Category) -> bool {
    c.family@ == "change"@ && has_score(r, c.id@, t)
}

/// The key by which change categories compete: the total order of their scores.
pub open spec fn candidate_key(r: ResultRecord, c: Category) -> u64 {
    match probability_of(r, c.id@) {
        Some(p) => order_key(p),
        None => order_key(0),
    }
}

/// The change category with the highest score, the last of several equal ones.
pub open spec fn best_change(r: ResultRecord, t: u64, cats: Seq<Category>) -> Option<int>
    decreases cats.len(),
{
    if cats.len() == 0 {
        None
    } else {
        let i = cats.len() - 1;
        let prev = best_change(r, t, cats.drop_last());
        if change_candidate(r, t, cats[i]) {
            match prev {
                Some(j) => if candidate_key(r, cats[j]) > candidate_key(r, cats[i]) {
                    Some(j)
                } else {
                    Some(i)
                },
                None => Some(i),
            }
        } else {
            prev
        }
    }
}

/// The short name shown for a change category.
pub open spec fn change_label(id: Seq<char>, label: Seq<char>) -> Seq<char> {
    if id == "change_performance"@ {
        "Performance"@
    } else if id == "change_feature"@ {
        "Feature"@
    } else if id == "change_refactor"@ {
        "Refactor"@
    } else if id == "change_hardening"@ {
        "Hardening"@
    } else if id == "change_dependency"@ {
        "Dependency"@
    } else if id == "change_compatibility"@ {
        "Compatibility"@
    } else if id == "change_build"@ {
        "Build"@
    } else if id == "change_resilience"@ {
        "Reliability"@
    } else if id == "change_cleanup"@ {
        "Cleanup"@
    } else if id == "change_api"@ {
        "API change"@
    } else if id == "change_ux"@ {
        "UX"@
    } else {
        label
    }
}

/// The classification shown first for a result, and its family: its status when not
/// reviewed; a security fix when a CWE scored; a security review, a bug fix, the
/// highest change; otherwise context.
pub open spec fn classification(r: ResultRecord, t: u64, cats: Seq<Category>) -> (
    Seq<char>,
    Seq<char>,
) {
    if !is_reviewed(r) {
        (
            if r.status@ == "failed"@ {
                "Failed"@
            } else {
                "Not analyzed"@
            },
            "status"@,
        )
    } else if cwes_of(r, t, cats).len() > 0 {
        ("Security fix"@, "security"@)
    } else if has_score(r, "security_fix"@, t) || family_has(r, t, cats, "security"@) {
        ("Security review"@, "security"@)
    } else if has_score(r, "bug_fix"@, t) || family_has(r, t, cats, "bug"@) {
        ("Bug fix"@, "bug"@)
    } else if best_change(r, t, cats) is Some {
        let k = best_change(r, t, cats)->0;
        (change_label(cats[k].id@, cats[k].label@), "change"@)
    } else {
        (
            if r.review_coverage@ == "metadata"@ {
                "Metadata review"@
            } else {
                "Unclassified"@
            },
            "context"@,
        )
    }
}

fn lookup_scores(ps: &Vec<(String, u64)>, id: &str) -> (r: Option<u64>)
    ensures
        r == score_lookup(ps@, id@),
{
    let mut i: usize = 0;
    assert(ps@.skip(0) =~= ps@);
    while i < ps.len()
        invariant
            i <= ps.len(),
            score_lookup(ps@, id@) == score_lookup(ps@.skip(i as int), id@),
        decreases ps.len() - i,
    {
        assert(ps@.skip(i as int).skip(1) =~= ps@.skip(i + 1));
        if str_eq(ps[i].0.as_str(), id) {
            return Some(ps[i].1);
        }
        i = i + 1;
    }
    None
}

fn lookup_labels(ls: &Vec<Label>, id: &str) -> (r: Option<u64>)
    ensures
        r == label_lookup(ls@, id@),
{
    let mut i: usize = 0;
    assert(ls@.skip(0) =~= ls@);
    while i < ls.len()
        invariant
            i <= ls.len(),
            label_lookup(ls@, id@) == label_lookup(ls@.skip(i as int), id@),
        decreases ls.len() - i,
    {
        assert(ls@.skip(i as int).skip(1) =~= ls@.skip(i + 1));
        if str_eq(ls[i].id.as_str(), id) {
            return Some(ls[i].probability);
        }
        i = i + 1;
    }
    None
}

impl ResultRecord {
    /// The record of a commit not yet reviewed.
    pub fn pending(sha: &str) -> (r: ResultRecord)
        ensures
            r.commit.sha@ == sha@,
            r.commit.parents@.len() == 0,
            r.commit.date@.len() == 0,
            r.commit.author@.len() == 0,
            r.commit.message@ == "Awaiting review"@,
            r.commit.committed_at@.len() == 0,
            r.commit.files@.len() == 0,
            !r.commit.merge,
            r.commit.excluded_files == 0,
            r.status@ == "pending"@,
            r.evaluated == 0,
            r.total == 0,
            r.probabilities@.len() == 0,
            r.categories@.len() == 0,
            r.evidence@.len() == 0,
            r.warnings@.len() == 0,
            r.aggregation@ == "commit_review"@,
            r.review_coverage@ == "unavailable"@,
            scores_well_formed(r),
    {
        ResultRecord {
            commit: Commit {
                sha: String::from_str(sha),
                parents: Vec::new(),
                date: String::new(),
                author: String::new(),
                message: String::from_str("Awaiting review"),
                committed_at: String::new(),
                files: Vec::new(),
                merge: false,
                excluded_files: 0,
            },
            status: String::from_str("pending"),
            evaluated: 0,
            total: 0,
            probabilities: Vec::new(),
            categories: Vec::new(),
            evidence: Vec::new(),
            warnings: Vec::new(),
            aggregation: String::from_str("commit_review"),
            review_coverage: String::from_str("unavailable"),
        }
    }

    /// Reviewed: complete or partial.
    pub fn reviewed(&self) -> (r: bool)
        ensures
            r == is_reviewed(*self),
    {
        str_eq(self.status.as_str(), "complete") || str_eq(self.status.as_str(), "partial")
    }

    /// The score of `id`.
    pub fn probability(&self, id: &str) -> (r: Option<u64>)
        ensures
            r == probability_of(*self, id@),
    {
        match lookup_scores(&self.probabilities, id) {
            Some(p) => Some(p),
            None => lookup_labels(&self.categories, id),
        }
    }

    /// `id` scored at least `t`.
    pub fn has(&self, id: &str, t: u64) -> (r: bool)
        ensures
            r == has_score(*self, id@, t),
    {
        match self.probability(id) {
            Some(p) => ge(p, t),
            None => false,
        }
    }

    fn family_has(&self, t: u64, cats: &Vec<Category>, family: &str) -> (r: bool)
        ensures
            r == family_has(*self, t, cats@, family@),
    {
        let mut k: usize = 0;
        while k < cats.len()
            invariant
                k <= cats.len(),
                forall|j: int|
                    0 <= j < k ==> !((#[trigger] cats@[j]).family@ == family@ && has_score(
                        *self,
                        cats@[j].id@,
                        t,
                    )),
            decreases cats.len() - k,
        {
            if str_eq(cats[k].family.as_str(), family) && self.has(cats[k].id.as_str(), t) {
                return true;
            }
            k = k + 1;
        }
        false
    }

    /// The CWEs of the categories scored at least `threshold`, in taxonomy order.
    pub fn cwes(&self, threshold: u64, taxonomy: &Taxonomy) -> (r: Vec<u32>)
        ensures
            r@ == cwes_of(*self, threshold, taxonomy.categories@),
    {
        let cats = &taxonomy.categories;
        let mut out: Vec<u32> = Vec::new();
        let mut k: usize = 0;
        assert(cats@.take(0) =~= Seq::<Category>::empty());
        while k < cats.len()
            invariant
                k <= cats.len(),
                out@ == cwes_of(*self, threshold, cats@.take(k as int)),
            decreases cats.len() - k,
        {
            assert(cats@.take(k + 1).drop_last() =~= cats@.take(k as int));
            assert(cats@.take(k + 1).last() == cats@[k as int]);
            match cats[k].cwe {
                Some(n) => {
                    if self.has(cats[k].id.as_str(), threshold) {
                        out.push(n);
                    }
                },
                None => {},
            }
            k = k + 1;
        }
        assert(cats@.take(cats.len() as int) =~= cats@);
        out
    }

    /// The classification shown first for this result, and its family.
    pub fn primary_classification(&self, threshold: u64, taxonomy: &Taxonomy) -> (r: (
        String,
        &'static str,
    ))
        ensures
            (r.0@, r.1@) == classification(*self, threshold, taxonomy.categories@),
    {
        let cats = &taxonomy.categories;
        if !self.reviewed() {
            let kind = if str_eq(self.status.as_str(), "failed") {
                String::from_str("Failed")
            } else {
                String::from_str("Not analyzed")
            };
            return (kind, "status");
        }
        if self.cwes(threshold, taxonomy).len() > 0 {
            return (String::from_str("Security fix"), "security");
        }
        if self.has("security_fix", threshold) || self.family_has(threshold, cats, "security") {
            return (String::from_str("Security review"), "security");
        }
        if self.has("bug_fix", threshold) || self.family_has(threshold, cats, "bug") {
            return (String::from_str("Bug fix"), "bug");
        }
        let mut best: Option<usize> = None;
        let mut best_key: u64 = 0;
        let mut k: usize = 0;
        assert(cats@.take(0) =~= Seq::<Category>::empty());
        while k < cats.len()
            invariant
                k <= cats.len(),
                match best_change(*self, threshold, cats@.take(k as int)) {
                    Some(j) => best matches Some(b) && b == j && b < k && best_key
                        == candidate_key(*self, cats@[j]),
                    None => best is None,
                },
            decreases cats.len() - k,
        {
            assert(cats@.take(k + 1).drop_last() =~= cats@.take(k as int));
            assert(cats@.take(k + 1)[k as int] == cats@[k as int]);
            let c = &cats[k];
            if str_eq(c.family.as_str(), "change") && self.has(c.id.as_str(), threshold) {
                let key = match self.probability(c.id.as_str()) {
                    Some(p) => total_key(p),
                    None => total_key(0),
                };
                match best {
                    Some(j) => {
                        assert(cats@.take(k as int)[j as int] == cats@[j as int]);
                        if !(best_key > key) {
                            best = Some(k);
                            best_key = key;
                        }
                    },
                    None => {
                        best = Some(k);
                        best_key = key;
                    },
                }
            } else {
                proof {
                    match best_change(*self, threshold, cats@.take(k as int)) {
                        Some(j) => {
                            assert(cats@.take(k as int)[j] == cats@[j]);
                        },
                        None => {},
                    }
                }
            }
            k = k + 1;
        }
        assert(cats@.take(cats.len() as int) =~= cats@);
        match best {
            Some(j) => {
                let c = &cats[j];
                let label = change_name(c.id.as_str(), c.label.as_str());
                (label, "change")
            },
            None => {
                let kind = if str_eq(self.review_coverage.as_str(), "metadata") {
                    String::from_str("Metadata review")
                } else {
                    String::from_str("Unclassified")
                };
                (kind, "context")
            },
        }
    }
}

fn change_name(id: &str, label: &str) -> (r: String)
    ensures
        r@ == change_label(id@, label@),
{
    if str_eq(id, "change_performance") {
        String::from_str("Performance")
    } else if str_eq(id, "change_feature") {
        String::from_str("Feature")
    } else if str_eq(id, "change_refactor") {
        String::from_str("Refactor")
    } else if str_eq(id, "change_hardening") {
        String::from_str("Hardening")
    } else if str_eq(id, "change_dependency") {
        String::from_str("Dependency")
    } else if str_eq(id, "change_compatibility") {
        String::from_str("Compatibility")
    } else if str_eq(id, "change_build") {
        String::from_str("Build")
    } else if str_eq(id, "change_resilience") {
        String::from_str("Reliability")
    } else if str_eq(id, "change_cleanup") {
        String::from_str("Cleanup")
    } else if str_eq(id, "change_api") {
        String::from_str("API change")
    } else if str_eq(id, "change_ux") {
        String::from_str("UX")
    } else {
        String::from_str(label)
    }
}

/// A reviewed result is shown as a security fix exactly when some category with a CWE
/// scored at least the threshold; a security finding without a mapped CWE is shown
/// as a security review instead.
pub proof fn law_security_fix_needs_a_cwe(r: ResultRecord, t: u64, cats: Seq<Category>)
    ensures
        classification(r, t, cats) == ("Security fix"@, "security"@) <==> (is_reviewed(r)
            && cwes_of(r, t, cats).len() > 0),
{
    reveal_strlit("security");
    reveal_strlit("status");
    reveal_strlit("bug");
    reveal_strlit("change");
    reveal_strlit("context");
    reveal_strlit("Security fix");
    reveal_strlit("Security review");
    assert("security"@ != "status"@) by {
        assert("security"@[1] != "status"@[1]);
    }
    assert("security"@.len() == 8 && "bug"@.len() == 3 && "change"@.len() == 6);
    assert("security"@ != "bug"@);
    assert("security"@ != "change"@);
    assert("security"@ != "context"@) by {
        assert("security"@[0] != "context"@[0]);
    }
    assert("Security fix"@ != "Security review"@) by {
        assert("Security fix"@.len() != "Security review"@.len());
    }
}

/// The CWEs found are exactly those of the categories scored at least `t`: none when
/// no category with a CWE scored that high, and each such category's CWE otherwise.
pub proof fn lemma_cwes_found(r: ResultRecord, t: u64, cats: Seq<Category>)
    ensures
        (forall|k: int| 0 <= k < cats.len() && (#[trigger] cats[k]).cwe is Some ==> !has_score(
            r,
            cats[k].id@,
            t,
        )) ==> cwes_of(r, t, cats).len() == 0,
        forall|k: int|
            0 <= k < cats.len() && (#[trigger] cats[k]).cwe is Some && has_score(
                r,
                cats[k].id@,
                t,
            ) ==> cwes_of(r, t, cats).contains(cats[k].cwe->0),
    decreases cats.len(),
{
    if cats.len() > 0 {
        let prev = cats.drop_last();
        lemma_cwes_found(r, t, prev);
        if forall|k: int| 0 <= k < cats.len() && (#[trigger] cats[k]).cwe is Some ==> !has_score(
            r,
            cats[k].id@,
            t,
        ) {
            assert forall|k: int| 0 <= k < prev.len() && (#[trigger] prev[k]).cwe is Some implies !has_score(
                r,
                prev[k].id@,
                t,
            ) by {
                assert(prev[k] == cats[k]);
            }
            assert(cats[cats.len() - 1] == cats.last());
        }
        assert forall|k: int|
            0 <= k < cats.len() && (#[trigger] cats[k]).cwe is Some && has_score(
                r,
                cats[k].id@,
                t,
            ) implies cwes_of(r, t, cats).contains(cats[k].cwe->0) by {
            let n = cats[k].cwe->0;
            let whole = cwes_of(r, t, cats);
            let front = cwes_of(r, t, prev);
            if k < prev.len() {
                assert(prev[k] == cats[k]);
                let i = choose|i: int| 0 <= i < front.len() && front[i] == n;
                assert(whole[i] == front[i]);
            } else {
                assert(whole[front.len() as int] == n);
            }
        }
    }
}

/// Security outranks bugs: a reviewed result that scores no category with a CWE at
/// least the threshold, but scores `security_fix` or some security-family category
/// that high, is a security review, whatever its bug scores are.
pub proof fn law_security_outranks_bugs(r: ResultRecord, t: u64, cats: Seq<Category>)
    requires
        r.status@ == "complete"@ || r.status@ == "partial"@,
        forall|k: int| 0 <= k < cats.len() && (#[trigger] cats[k]).cwe is Some ==> !has_score(
            r,
            cats[k].id@,
            t,
        ),
        has_score(r, "security_fix"@, t) || exists|k: int|
            0 <= k < cats.len() && (#[trigger] cats[k]).family@ == "security"@ && has_score(
                r,
                cats[k].id@,
                t,
            ),
    ensures
        classification(r, t, cats) == ("Security review"@, "security"@),
{
    lemma_cwes_found(r, t, cats);
}

/// A reviewed result with some category of a CWE scored at least the threshold is a
/// security fix, whatever else it scores.
pub proof fn law_scored_weaknesses_make_security_fixes(r: ResultRecord, t: u64, cats: Seq<Category>, k: int)
    requires
        r.status@ == "complete"@ || r.status@ == "partial"@,
        0 <= k < cats.len(),
        cats[k].cwe is Some,
        has_score(r, cats[k].id@, t),
    ensures
        classification(r, t, cats) == ("Security fix"@, "security"@),
{
    lemma_cwes_found(r, t, cats);
    assert(cwes_of(r, t, cats).contains(cats[k].cwe->0));
}

} // verus!
