use commit_miner::export::{csv, html, render};
use commit_miner::model::{Category, Options, Progress, ResultRecord, Scan, Summary, Taxonomy};

fn taxonomy() -> Taxonomy {
    Taxonomy {
        categories: vec![Category {
            id: "sql_injection".to_string(),
            label: "SQL injection".to_string(),
            family: "security".to_string(),
            description: String::new(),
            cwe: Some(89),
        }],
        core_questions: vec![],
    }
}

fn record(sha: &str, message: &str, scores: &[(&str, f64)]) -> ResultRecord {
    let mut r = ResultRecord::pending(sha);
    r.status = "complete".to_string();
    r.commit.message = message.to_string();
    r.commit.date = "2024-05-05T09:00:00+02:00".to_string();
    r.probabilities = scores.iter().map(|(k, v)| (k.to_string(), v.to_bits())).collect();
    r
}

fn scan(results: Vec<ResultRecord>) -> Scan {
    Scan {
        selection: None,
        summary: Summary {
            id: "s".to_string(),
            status: "completed".to_string(),
            options: Options {
                source: ".".to_string(),
                commit: None,
                limit: None,
                since: None,
                until: None,
                first_parent: false,
                threshold: 0.5f64.to_bits(),
                concurrency: 8,
                cache: true,
            },
            started: "2024-01-01".to_string(),
            progress: Progress::default(),
        },
        results,
        events: vec![],
        owner_pid: 1,
        error: None,
    }
}

#[test]
fn csv_report() {
    let mut a = record("abcdef1234", "Fix =bug\nmore", &[("sql_injection", 0.9)]);
    a.commit.committed_at = "2024-05-06T10:00:00Z".to_string();
    let b = record("b2", "=cmd", &[("security_fix", 0.9)]);
    let c = record("c3", "", &[("bug_fix", 0.9)]);
    let s = scan(vec![a, b, c]);
    let out = csv(&s, &taxonomy());
    assert_eq!(
        out,
        "\"Commit\",\"Message\",\"Type\",\"CWE\",\"Date\"\r\n\
         \"abcdef1234\",\"Fix =bug\",\"Security fix\",\"CWE-89\",\"2024-05-06\"\r\n\
         \"b2\",\"'=cmd\",\"Security review\",\"Unresolved\",\"2024-05-05\"\r\n\
         \"c3\",\"\",\"Bug fix\",\"\",\"2024-05-05\"\r\n"
    );
    assert_eq!(render(&s, "csv", &taxonomy(), "", "", "").ok().unwrap(), out);
    assert_eq!(render(&s, "pdf", &taxonomy(), "", "", "").err().unwrap(), "Unknown output format");
}

#[test]
fn html_report_keeps_data_inside_its_script() {
    let page = html("{\"a\":\"</script><b>&\u{2028}\u{2029}\"}", "body{}", "x</script>y");
    assert!(page.starts_with("<!doctype html><html lang=\"en\"><head><meta charset=\"utf-8\">"));
    assert!(page.contains("<style>body{}</style>"));
    assert!(page.contains(
        "<script id=\"report-data\" type=\"application/json\">{\"a\":\"\\u003c/script\\u003e\\u003cb\\u003e\\u0026\\u2028\\u2029\"}</script>"
    ));
    assert!(page.ends_with("<script>x<\\/script>y</script></body></html>"));
    assert!(page.contains("connect-src 'none'"));
    let s = scan(vec![]);
    assert_eq!(render(&s, "html", &taxonomy(), "{}", "c", "j").ok().unwrap(), html("{}", "c", "j"));
}
