use commit_miner::git::parse_diff;
use commit_miner::git::Sections;
use commit_miner::terminal::clean;
use commit_miner::filter::Filters;
use commit_miner::model::{Category, ResultRecord, Taxonomy};

fn taxonomy() -> Taxonomy {
    Taxonomy {
        categories: vec![Category {
            id: "logic_error".to_string(),
            label: "Logic error".to_string(),
            family: "bug".to_string(),
            description: String::new(),
            cwe: None,
        }],
        core_questions: vec![],
    }
}

fn scored(sha: &str, message: &str, scores: &[(&str, f64)]) -> ResultRecord {
    let mut r = ResultRecord::pending(sha);
    r.status = "complete".to_string();
    r.commit.message = message.to_string();
    r.probabilities = scores.iter().map(|(k, v)| (k.to_string(), v.to_bits())).collect();
    r
}

#[test]
fn filters_and_classification_ignore_commit_text() {
    let t = taxonomy();
    let half = 0.5f64.to_bits();
    let a = scored("a", "security fix for bug", &[("logic_error", 0.7)]);
    let b = scored("b", "unrelated", &[("logic_error", 0.7)]);
    for only in [vec!["bug"], vec!["security"], vec!["unclassified"], vec![]] {
        let f = Filters { only: only.iter().map(|s| s.to_string()).collect(), cwe: vec![], min_probability: None };
        assert_eq!(f.matches(&a, half, &t), f.matches(&b, half, &t));
    }
    assert_eq!(a.primary_classification(half, &t), b.primary_classification(half, &t));
}

#[test]
fn security_fix_is_reserved_for_mapped_weaknesses() {
    let t = Taxonomy {
        categories: vec![
            Category {
                id: "xss".to_string(),
                label: "XSS".to_string(),
                family: "security".to_string(),
                description: String::new(),
                cwe: Some(79),
            },
            Category {
                id: "other_security".to_string(),
                label: "Other".to_string(),
                family: "security".to_string(),
                description: String::new(),
                cwe: None,
            },
        ],
        core_questions: vec![],
    };
    let half = 0.5f64.to_bits();
    let mapped = scored("a", "m", &[("xss", 0.8), ("security_fix", 0.9)]);
    let unmapped = scored("b", "m", &[("other_security", 0.8), ("security_fix", 0.9)]);
    assert_eq!(mapped.primary_classification(half, &t), ("Security fix".to_string(), "security"));
    assert_eq!(unmapped.primary_classification(half, &t), ("Security review".to_string(), "security"));
}

#[test]
fn sections_are_numbered_and_never_empty() {
    let mut s = Sections::new("abc", "a.rs");
    s.line("@@ -1 +1 @@");
    s.line("@@ -5 +5 @@");
    for i in 0..200 {
        s.line(&format!("+line {i} {}", "x".repeat(100)));
    }
    s.line("@@ -900 +900 @@");
    s.line("@@ -950 +950 @@");
    s.line(" tail");
    let items = s.finish();
    assert!(items.len() > 3);
    for (i, item) in items.iter().enumerate() {
        assert_eq!((item.part, item.parts), (i + 1, items.len()));
        assert!(!item.lines.is_empty());
        assert_eq!((item.sha.as_str(), item.path.as_str()), ("abc", "a.rs"));
    }
    assert_eq!(items.last().unwrap().header, "@@ -950 +950 @@");
}

#[test]
fn sections_lose_no_line() {
    let mut s = Sections::new("abc", "a.rs");
    s.line("diff --git a/a.rs b/a.rs");
    s.line("@@ -1,300 +1,300 @@");
    let mut texts = vec![];
    for i in 0..300 {
        let text = format!("line {i} {}", "y".repeat(i % 90));
        s.line(&format!(" {text}"));
        texts.push(text);
    }
    s.line("@@ -900 +900 @@");
    s.line("-gone");
    texts.push("gone".to_string());
    let items = s.finish();
    assert!(items.len() > 5);
    for t in &texts {
        assert!(items.iter().any(|e| e.lines.iter().any(|l| &l.text == t)), "lost {t}");
    }
    assert!(items.iter().any(|e| e.lines.iter().any(|l| l.text == "diff --git a/a.rs b/a.rs")));
}

#[test]
fn cleaned_text_is_printable() {
    let dirty = "a\u{1b}[31mb\u{202e}c\u{7}\u{2066}d\u{9f}\te";
    let c = clean(dirty);
    assert_eq!(c, "a[31mbcde");
    assert!(c.chars().all(|ch| !ch.is_control()));
    assert_eq!(clean(&c), c);
    assert_eq!(clean("plain text · ≥"), "plain text · ≥");
}

#[test]
fn hunks_count_on_and_streaming_agrees_with_parsing() {
    let patch = "@@ -10,4 +20,5 @@ fn f\n ctx\n-old\n+new\n+more\n\\ No newline\n ctx2\n-gone";
    let hunks = parse_diff(patch);
    assert_eq!(hunks.len(), 1);
    let ls = &hunks[0].1;
    let olds: Vec<usize> = ls.iter().filter_map(|l| l.old_line).collect();
    let news: Vec<usize> = ls.iter().filter_map(|l| l.new_line).collect();
    assert_eq!(olds, vec![10, 11, 12, 13]);
    assert_eq!(news, vec![20, 21, 22, 23]);
    assert_eq!(ls[4].kind, "meta");
    assert_eq!(ls[4].text, "\\ No newline");
    assert_eq!(ls[1].text, "old");
    let mut s = Sections::new("abc", "a.rs");
    for l in patch.lines() {
        s.line(l);
    }
    let items = s.finish();
    assert_eq!(items.len(), 1);
    assert_eq!(items[0].header, hunks[0].0);
    let pairs = |v: &Vec<commit_miner::model::DiffLine>| {
        v.iter().map(|l| (l.kind.clone(), l.text.clone(), l.old_line, l.new_line)).collect::<Vec<_>>()
    };
    assert_eq!(pairs(&items[0].lines), pairs(ls));
}

#[test]
fn scores_are_found_by_id() {
    let mut r = ResultRecord::pending("abc");
    r.probabilities = vec![("a".to_string(), 1), ("b".to_string(), 2), ("c".to_string(), 3)];
    assert_eq!(r.probability("b"), Some(2));
    assert_eq!(r.probability("c"), Some(3));
    assert_eq!(r.probability("z"), None);
}
