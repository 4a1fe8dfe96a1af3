use commit_miner::filter::{cwe, scored_labels, selector, Filters};
use commit_miner::model::{Category, Options, Progress, ResultRecord, Scan, Summary, Taxonomy};

fn category(id: &str, family: &str, cwe: Option<u32>) -> Category {
    Category {
        id: id.to_string(),
        label: id.to_string(),
        family: family.to_string(),
        description: String::new(),
        cwe,
    }
}

fn taxonomy() -> Taxonomy {
    Taxonomy {
        categories: vec![
            category("sql_injection", "security", Some(89)),
            category("xss", "security", Some(79)),
            category("logic_error", "bug", None),
            category("change_feature", "change", None),
        ],
        core_questions: vec![],
    }
}

fn scored(sha: &str, status: &str, scores: &[(&str, f64)]) -> ResultRecord {
    let mut r = ResultRecord::pending(sha);
    r.status = status.to_string();
    r.probabilities = scores.iter().map(|(k, v)| (k.to_string(), v.to_bits())).collect();
    r
}

fn filters(only: &[&str], cwes: &[u32], min: Option<f64>) -> Filters {
    Filters {
        only: only.iter().map(|s| s.to_string()).collect(),
        cwe: cwes.to_vec(),
        min_probability: min.map(f64::to_bits),
    }
}

fn half() -> u64 {
    0.5f64.to_bits()
}

#[test]
fn selectors_and_cwes_are_checked() {
    let t = taxonomy();
    assert_eq!(selector(" Security-Fix ", &t).ok().unwrap(), "security");
    assert_eq!(selector("insufficient-context", &t).ok().unwrap(), "context");
    assert_eq!(selector("XSS", &t).ok().unwrap(), "xss");
    assert_eq!(
        selector("nope", &t).err().unwrap(),
        "Unknown classification 'nope'. Run `commit-miner categories` for IDs."
    );
    assert_eq!(cwe("CWE-79", &t).ok().unwrap(), 79);
    assert_eq!(cwe(" cwe_89 ", &t).ok().unwrap(), 89);
    assert_eq!(cwe("x", &t).err().unwrap(), "Use a CWE number such as 79 or CWE-79");
    assert_eq!(
        cwe("22", &t).err().unwrap(),
        "CWE-22 is not in the current Jev taxonomy. Run `commit-miner categories`."
    );
}

#[test]
fn what_filters_keep() {
    let t = taxonomy();
    let none = filters(&[], &[], None);
    assert!(!none.active());
    assert!(none.matches(&ResultRecord::pending("a"), half(), &t));
    let security = filters(&["security"], &[], None);
    assert!(security.active());
    assert!(!security.matches(&ResultRecord::pending("a"), half(), &t));
    assert!(security.matches(&scored("a", "complete", &[("security_fix", 0.9)]), half(), &t));
    assert!(security.matches(&scored("a", "complete", &[("xss", 0.6)]), half(), &t));
    assert!(!security.matches(&scored("a", "complete", &[("bug_fix", 0.9)]), half(), &t));
    let strict = filters(&[], &[], Some(0.95));
    assert_eq!(strict.cutoff(half()), 0.95f64.to_bits());
    assert_eq!(none.cutoff(half()), half());
    assert!(!strict.matches(&scored("a", "complete", &[("bug_fix", 0.9)]), half(), &t));
    assert!(strict.matches(&scored("a", "complete", &[("bug_fix", 0.96)]), half(), &t));
    assert!(strict.matches(&scored("a", "complete", &[("insufficient_context", 0.97)]), half(), &t));
    let by_cwe = filters(&[], &[79], None);
    assert!(by_cwe.matches(&scored("a", "complete", &[("xss", 0.8)]), half(), &t));
    assert!(!by_cwe.matches(&scored("a", "complete", &[("sql_injection", 0.9)]), half(), &t));
    let unclassified = filters(&["unclassified"], &[], None);
    assert!(unclassified.matches(&scored("a", "complete", &[("bug_fix", 0.1)]), half(), &t));
    assert!(!unclassified.matches(&scored("a", "complete", &[("logic_error", 0.6)]), half(), &t));
    let context = filters(&["context"], &[], None);
    assert!(context.matches(&scored("a", "partial", &[("insufficient_context", 0.6)]), half(), &t));
    let change = filters(&["change", "bug"], &[], None);
    assert!(change.matches(&scored("a", "complete", &[("change_feature", 0.6)]), half(), &t));
    assert!(change.matches(&scored("a", "complete", &[("logic_error", 0.6)]), half(), &t));
    let exact = filters(&["xss"], &[], None);
    assert!(exact.matches(&scored("a", "complete", &[("xss", 0.5)]), half(), &t));
}

#[test]
fn labels_by_descending_score() {
    let t = taxonomy();
    let r = scored("a", "complete", &[("xss", 0.6), ("sql_injection", 0.9), ("logic_error", 0.6), ("change_feature", 0.2)]);
    let labels = scored_labels(&r, half(), &t);
    let ids: Vec<&str> = labels.iter().map(|l| l.id.as_str()).collect();
    assert_eq!(ids, vec!["sql_injection", "xss", "logic_error"]);
    assert_eq!(labels[0].probability, 0.9f64.to_bits());
}

fn scan(results: Vec<ResultRecord>) -> Scan {
    Scan {
        selection: None,
        summary: Summary {
            id: "s".to_string(),
            status: "completed".to_string(),
            options: Options {
                source: ".".to_string(),
                commit: None,
                limit: None,
                since: None,
                until: None,
                first_parent: false,
                threshold: 0.5f64.to_bits(),
                concurrency: 8,
                cache: true,
            },
            started: "2024-01-01".to_string(),
            progress: Progress::default(),
        },
        results,
        events: vec![],
        owner_pid: 1,
        error: None,
    }
}

#[test]
fn applying_filters() {
    let t = taxonomy();
    let results = vec![
        scored("a", "complete", &[("logic_error", 0.7), ("xss", 0.9)]),
        scored("b", "complete", &[("change_feature", 0.9)]),
        ResultRecord::pending("c"),
    ];
    let unchanged = filters(&[], &[], None).apply(scan(results), &t);
    assert_eq!(unchanged.results.len(), 3);
    assert!(unchanged.selection.is_none());
    let results = vec![
        scored("a", "complete", &[("logic_error", 0.7), ("xss", 0.9)]),
        scored("b", "complete", &[("change_feature", 0.9)]),
        ResultRecord::pending("c"),
    ];
    let shown = filters(&["bug"], &[], None).apply(scan(results), &t);
    assert_eq!(shown.results.len(), 1);
    assert_eq!(shown.results[0].commit.sha, "a");
    let ids: Vec<&str> = shown.results[0].categories.iter().map(|l| l.id.as_str()).collect();
    assert_eq!(ids, vec!["xss", "logic_error"]);
    let s = shown.selection.unwrap();
    assert_eq!(s.only, vec!["bug".to_string()]);
    assert_eq!((s.matched, s.classified), (1, 3));
    assert_eq!(s.min_probability, half());
}

#[test]
fn filters_describe_themselves() {
    let none = Filters { only: vec![], cwe: vec![], min_probability: None };
    assert_eq!(none.description("50"), "");
    let f = Filters {
        only: vec!["bug".to_string(), "logic_error".to_string()],
        cwe: vec![79, 89],
        min_probability: None,
    };
    assert_eq!(f.description("50"), "bug, logic_error · CWE-79, CWE-89 · ≥ 50%");
    let g = Filters { only: vec![], cwe: vec![], min_probability: Some(0.7f64.to_bits()) };
    assert_eq!(g.description("70"), "≥ 70%");
}
