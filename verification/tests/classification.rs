use commit_miner::model::{Category, Commit, Label, ResultRecord, Taxonomy};

fn category(id: &str, label: &str, family: &str, cwe: Option<u32>) -> Category {
    Category {
        id: id.to_string(),
        label: label.to_string(),
        family: family.to_string(),
        description: String::new(),
        cwe,
    }
}

fn taxonomy() -> Taxonomy {
    Taxonomy {
        categories: vec![
            category("sql_injection", "SQL injection", "security", Some(89)),
            category("xss", "Cross-site scripting", "security", Some(79)),
            category("missing_auth", "Missing authorization", "security", None),
            category("logic_error", "Logic error", "bug", None),
            category("change_performance", "Performance work", "change", None),
            category("change_feature", "New feature", "change", None),
            category("change_other", "Other change", "change", None),
        ],
        core_questions: vec![],
    }
}

fn scored(status: &str, scores: &[(&str, f64)]) -> ResultRecord {
    let mut r = ResultRecord::pending("abc");
    r.status = status.to_string();
    r.probabilities = scores.iter().map(|(k, v)| (k.to_string(), v.to_bits())).collect();
    r
}

fn kind(r: &ResultRecord) -> (String, &'static str) {
    r.primary_classification(0.5f64.to_bits(), &taxonomy())
}

#[test]
fn pending_records() {
    let r = ResultRecord::pending("abc");
    assert_eq!(r.commit.sha, "abc");
    assert_eq!(r.commit.message, "Awaiting review");
    assert_eq!(r.status, "pending");
    assert_eq!(r.aggregation, "commit_review");
    assert_eq!(r.review_coverage, "unavailable");
    assert!(!r.reviewed());
    assert_eq!(kind(&r), ("Not analyzed".to_string(), "status"));
    assert_eq!(kind(&scored("failed", &[])), ("Failed".to_string(), "status"));
    assert!(scored("complete", &[]).reviewed());
    assert!(scored("partial", &[]).reviewed());
}

#[test]
fn classifications_in_priority_order() {
    let t = taxonomy();
    let r = scored("complete", &[("sql_injection", 0.9), ("bug_fix", 0.9)]);
    assert_eq!(r.cwes(0.5f64.to_bits(), &t), vec![89]);
    assert_eq!(kind(&r), ("Security fix".to_string(), "security"));
    let r = scored("complete", &[("xss", 0.6), ("sql_injection", 0.7)]);
    assert_eq!(r.cwes(0.5f64.to_bits(), &t), vec![89, 79]);
    assert_eq!(r.cwes(0.65f64.to_bits(), &t), vec![89]);
    assert_eq!(kind(&scored("complete", &[("security_fix", 0.8)])), ("Security review".to_string(), "security"));
    assert_eq!(kind(&scored("partial", &[("missing_auth", 0.8)])), ("Security review".to_string(), "security"));
    assert_eq!(kind(&scored("complete", &[("bug_fix", 0.7)])), ("Bug fix".to_string(), "bug"));
    assert_eq!(kind(&scored("complete", &[("logic_error", 0.5)])), ("Bug fix".to_string(), "bug"));
    assert_eq!(
        kind(&scored("complete", &[("change_performance", 0.6), ("change_feature", 0.6)])),
        ("Feature".to_string(), "change")
    );
    assert_eq!(
        kind(&scored("complete", &[("change_performance", 0.7), ("change_feature", 0.6)])),
        ("Performance".to_string(), "change")
    );
    assert_eq!(kind(&scored("complete", &[("change_other", 0.9)])), ("Other change".to_string(), "change"));
    assert_eq!(kind(&scored("complete", &[("bug_fix", 0.4)])), ("Unclassified".to_string(), "context"));
    let mut m = scored("complete", &[]);
    m.review_coverage = "metadata".to_string();
    assert_eq!(kind(&m), ("Metadata review".to_string(), "context"));
}

#[test]
fn scores_fall_back_to_found_categories() {
    let mut r = scored("complete", &[("bug_fix", 0.2)]);
    r.categories = vec![
        Label { id: "bug_fix".to_string(), probability: 0.9f64.to_bits() },
        Label { id: "xss".to_string(), probability: 0.8f64.to_bits() },
    ];
    assert_eq!(r.probability("bug_fix"), Some(0.2f64.to_bits()));
    assert_eq!(r.probability("xss"), Some(0.8f64.to_bits()));
    assert_eq!(r.probability("missing"), None);
    assert!(r.has("xss", 0.8f64.to_bits()));
    assert!(!r.has("xss", 0.81f64.to_bits()));
    assert!(!r.has("xss", f64::NAN.to_bits()));
    let c: Commit = r.commit;
    assert!(!c.merge);
}
