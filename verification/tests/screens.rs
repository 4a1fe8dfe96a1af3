use commit_miner::model::{
    Category, DiffLine, Evidence, Options, Progress, ResultRecord, Scan, Segment, Summary, Taxonomy,
};
use commit_miner::terminal::Terminal;
use commit_miner::screens::{clock, progress_suffix};

fn plain(width: usize) -> Terminal {
    Terminal { color: false, width }
}

fn scan() -> Scan {
    Scan {
        selection: None,
        summary: Summary {
            id: "abc-1".to_string(),
            status: "completed".to_string(),
            options: Options {
                source: "https://github.com/o/r".to_string(),
                commit: None,
                limit: None,
                since: None,
                until: None,
                first_parent: false,
                threshold: 0.5f64.to_bits(),
                concurrency: 8,
                cache: true,
            },
            started: "2024-01-02T03:04:05Z".to_string(),
            progress: Progress::default(),
        },
        results: vec![],
        events: vec![],
        owner_pid: 1,
        error: None,
    }
}

#[test]
fn saved_scan_entry() {
    let mut s = scan();
    s.summary.progress.classified = 3;
    assert_eq!(
        plain(80).saved(&s),
        "  abc-1\n    2024-01-02 · completed · 3 classified\n    https://github.com/o/r\n"
    );
}

#[test]
fn summary_lines() {
    let mut s = scan();
    s.summary.progress.phase = "Done".to_string();
    assert_eq!(
        plain(100).summary(&s, 0, false, "cost unavailable"),
        "\n  Done\n  0 classified · 0 security · 0 bugs · 0 metadata-only · 0 failed\n  scan abc-1\n"
    );
    s.summary.progress.calls = 2;
    s.summary.progress.cached = 1;
    s.summary.progress.input_tokens = 10;
    s.summary.progress.output_tokens = 0;
    s.summary.progress.classified = 4;
    assert_eq!(
        plain(100).summary(&s, 1, true, "est. $0.000001"),
        "\n  Done\n  4 classified · 0 security · 0 bugs · 0 metadata-only · 0 failed\n  2 calls · 1 cached · 10 in / 0 out tokens · est. $0.000001\n  1 matching / 4 classified\n  scan abc-1\n"
    );
    s.summary.progress.calls = 0;
    s.summary.progress.input_tokens = 0;
    assert!(plain(100).summary(&s, 1, false, "x").contains("\n  0 calls · 1 cached · est. $0.000000\n"));
}

#[test]
fn diff_lines() {
    let mut r = ResultRecord::pending("abc");
    r.evidence = vec![Segment {
        evidence: Evidence {
            id: "i".to_string(),
            sha: "abc".to_string(),
            path: "a.rs".to_string(),
            header: "@@ -1 +1 @@".to_string(),
            lines: vec![
                DiffLine { kind: "removed".to_string(), text: "x".to_string(), old_line: Some(1), new_line: None },
                DiffLine { kind: "added".to_string(), text: "y".to_string(), old_line: None, new_line: Some(12) },
            ],
            part: 1,
            parts: 1,
        },
        probabilities: vec![],
        cached: false,
        model: "m".to_string(),
    }];
    assert_eq!(
        plain(80).diff(&r),
        format!("\n  a.rs\n  @@ -1 +1 @@\n\n      1       − x\n{}12 + y", " ".repeat(11))
    );
}

#[test]
fn results_table() {
    let t = Taxonomy {
        categories: vec![Category {
            id: "logic_error".to_string(),
            label: "Logic".to_string(),
            family: "bug".to_string(),
            description: String::new(),
            cwe: None,
        }],
        core_questions: vec![],
    };
    let mut r = ResultRecord::pending("abcdef1234");
    r.status = "complete".to_string();
    r.commit.message = "Fix bug\nDetails".to_string();
    r.commit.committed_at = "2024-05-06T10:00:00Z".to_string();
    r.probabilities = vec![("bug_fix".to_string(), 0.9f64.to_bits())];
    let p = ResultRecord::pending("ffff");
    let table = plain(100).table(&[&r, &p], 0.5f64.to_bits(), &t);
    let expected = [
        "\n  Commits\n  2 results\n".to_string(),
        format!("  {:<7}  {:<49}  {:<26}  {}", "COMMIT", "MESSAGE", "TYPE / CWE", "DATE"),
        format!("  {}", "─".repeat(98)),
        format!("  {:<7}  {:<49}  {:<26}  {}", "abcdef1", "Fix bug", "Bug fix", "2024-05-06"),
        format!("  {:<7}  {:<49}  {:<26}  {}", "ffff", "Awaiting review", "Not analyzed", "—"),
        String::new(),
    ]
    .join("\n");
    assert_eq!(table, expected);
}

#[test]
fn result_cards() {
    let t = Taxonomy {
        categories: vec![
            Category {
                id: "sql_injection".to_string(),
                label: "SQL injection".to_string(),
                family: "security".to_string(),
                description: String::new(),
                cwe: Some(89),
            },
            Category {
                id: "logic_error".to_string(),
                label: "Logic error".to_string(),
                family: "bug".to_string(),
                description: String::new(),
                cwe: None,
            },
        ],
        core_questions: vec![],
    };
    let mut r = ResultRecord::pending("abcdef1234567");
    r.status = "complete".to_string();
    r.commit.message = "Fix bug\nDetails".to_string();
    r.commit.author = "Ann".to_string();
    r.commit.files = vec!["a.rs".to_string()];
    r.commit.committed_at = "2024-05-06T10:00:00Z".to_string();
    r.probabilities = vec![
        ("security_fix".to_string(), 0.9f64.to_bits()),
        ("sql_injection".to_string(), 0.9f64.to_bits()),
        ("logic_error".to_string(), 0.6f64.to_bits()),
    ];
    let percents = vec![(0.9f64.to_bits(), "90%".to_string()), (0.6f64.to_bits(), "60%".to_string())];
    assert_eq!(
        plain(80).record(&r, 0.5f64.to_bits(), &t, &percents),
        "  ╭─ abcdef1234\n  │ Fix bug\n  │ SECURITY FIX · CWE-89  90%\n  │ SECURITY  CWE-89 · SQL injection  90%\n  │ BUG  Logic error  60%\n  │ 2024-05-06 · Ann · 1 files\n  ╰─\n"
    );
    let mut p = ResultRecord::pending("ffff");
    p.warnings = vec!["Jev unavailable".to_string()];
    assert_eq!(
        plain(80).record(&p, 0.5f64.to_bits(), &t, &vec![]),
        "  ╭─ ffff\n  │ Awaiting review\n  │ NOT ANALYZED\n  │ Jev unavailable\n  ╰─\n"
    );
    let mut q = ResultRecord::pending("1234");
    q.status = "partial".to_string();
    q.commit.message = String::new();
    q.evaluated = 2;
    q.total = 5;
    q.probabilities = vec![("insufficient_context".to_string(), 0.7f64.to_bits())];
    let percents = vec![(0.7f64.to_bits(), "70%".to_string())];
    assert_eq!(
        plain(80).record(&q, 0.5f64.to_bits(), &t, &percents),
        "  ╭─ 1234\n  │ (no message)\n  │ Unclassified\n  │ NEEDS CONTEXT  70%\n  │  ·  · 0 files\n  │ Partial evidence · 2 / 5 sections\n  ╰─\n"
    );
}

#[test]
fn progress_bars() {
    assert_eq!(clock(0), "00:00:00");
    assert_eq!(clock(3 * 3600 + 25 * 60 + 7), "03:25:07");
    assert_eq!(clock(100 * 3600 + 59), "100:00:59");
    let suffix = progress_suffix(" 50", 61);
    assert_eq!(suffix, "  50% · elapsed 00:01:01");
    let t = plain(40);
    assert_eq!(t.bar_width(&suffix), 40 - 2 - 24);
    let line = t.progress(&suffix, 7, false);
    assert_eq!(line, format!("  {}{}{}\n", "━".repeat(7), "─".repeat(7), suffix));
    assert_eq!(t.progress(&suffix, 99, true), format!("  {}{}\n", "━".repeat(14), suffix));
    assert_eq!(plain(10).bar_width(&suffix), 1);
    let coloured = Terminal { color: true, width: 40 };
    assert!(coloured.progress(&suffix, 14, true).starts_with("  \u{1b}[38;5;78m━"));
}
