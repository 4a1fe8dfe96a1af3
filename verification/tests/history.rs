use commit_miner::history::{
    changed_files, check_parents, check_reference, commit_metadata, commit_record, date, date_range, field_count,
    history_limit, is_full_sha, lists_parent, parse_i64, reports_true, requested_commit,
    select_by_date, toplevel_flag,
    unresolved, Sizes,
};
use commit_miner::model::Options;

fn options() -> Options {
    Options {
        source: ".".to_string(),
        commit: None,
        limit: None,
        since: None,
        until: None,
        first_parent: false,
        threshold: 0.5f64.to_bits(),
        concurrency: 8,
        cache: true,
    }
}

fn strings(v: &[&str]) -> Vec<String> {
    v.iter().map(|s| s.to_string()).collect()
}

#[test]
fn dates_are_checked() {
    let d = date("2024-02-29").ok().unwrap();
    assert_eq!((d.year, d.month, d.day), (2024, 2, 29));
    let d = date("0000-02-29").ok().unwrap();
    assert_eq!((d.year, d.month, d.day), (0, 2, 29));
    assert_eq!(date("2023-02-29").err().unwrap(), "Invalid calendar date");
    assert_eq!(date("1900-02-29").err().unwrap(), "Invalid calendar date");
    assert_eq!(date("2023-13-01").err().unwrap(), "Invalid calendar date");
    assert_eq!(date("2023-00-10").err().unwrap(), "Invalid calendar date");
    assert_eq!(date("2023-04-31").err().unwrap(), "Invalid calendar date");
    assert_eq!(date("2023-2-28").err().unwrap(), "Dates must be YYYY-MM-DD");
    assert_eq!(date("2023/02/28").err().unwrap(), "Dates must be YYYY-MM-DD");
    assert_eq!(date("2023-02-281").err().unwrap(), "Dates must be YYYY-MM-DD");
    assert_eq!(date("２０２３-01-01").err().unwrap(), "Dates must be YYYY-MM-DD");
}

#[test]
fn date_range_covers_whole_days() {
    let day = Some("2020-01-01".to_string());
    assert_eq!(date_range(&day, &day).ok().unwrap(), (1577836800, 1577923200));
    assert_eq!(date_range(&None, &None).ok().unwrap(), (i64::MIN, i64::MAX));
    let epoch = Some("1970-01-01".to_string());
    assert_eq!(date_range(&epoch, &None).ok().unwrap(), (0, i64::MAX));
    let leap = Some("2000-03-01".to_string());
    assert_eq!(date_range(&leap, &None).ok().unwrap().0, 951868800);
    let end = Some("9999-12-31".to_string());
    assert_eq!(date_range(&None, &end).ok().unwrap().1, 253402300800);
    let early = Some("1969-12-31".to_string());
    assert_eq!(date_range(&early, &None).ok().unwrap().0, -86400);
    let bad = Some("x".to_string());
    let invalid = Some("2020-02-30".to_string());
    assert_eq!(date_range(&bad, &invalid).err().unwrap(), "Dates must be YYYY-MM-DD");
    assert_eq!(date_range(&None, &invalid).err().unwrap(), "Invalid calendar date");
    assert_eq!(date_range(&invalid, &bad).err().unwrap(), "Invalid calendar date");
}

#[test]
fn dated_history_is_newest_first() {
    let out = "300 c\n100 a\n300 d\n200 b\nnoline\n50 e\n";
    assert_eq!(select_by_date(out, 100, 301, None).ok().unwrap(), strings(&["c", "d", "b", "a"]));
    assert_eq!(select_by_date(out, 100, 301, Some(2)).ok().unwrap(), strings(&["c", "d"]));
    assert_eq!(select_by_date(out, 100, 300, Some(0)).ok().unwrap(), Vec::<String>::new());
    assert_eq!(select_by_date(out, 0, 100, None).ok().unwrap(), strings(&["e"]));
    assert_eq!(select_by_date("-5 x y\n", i64::MIN, i64::MAX, None).ok().unwrap(), strings(&["x y"]));
    assert_eq!(select_by_date("", 0, 1, None).ok().unwrap(), Vec::<String>::new());
    assert_eq!(
        select_by_date("1 a\n12x abc\n", 0, 10, None).err().unwrap(),
        "invalid digit found in string"
    );
    assert_eq!(
        select_by_date("99999999999999999999 abc", 0, 10, None).err().unwrap(),
        "number too large to fit in target type"
    );
    assert_eq!(
        select_by_date(" abc", 0, 10, None).err().unwrap(),
        "cannot parse integer from empty string"
    );
}

#[test]
fn integers_parse_as_rust_parses_them() {
    for s in [
        "", "+", "-", "+5", "-0", "0", "007", "9223372036854775807", "9223372036854775808",
        "-9223372036854775808", "-9223372036854775809", "1a", "a1", "12345678901234567890x",
        "+-1", "--1", " 1", "1 ", "٣",
    ] {
        let v: Vec<char> = s.chars().collect();
        match (parse_i64(&v), s.parse::<i64>()) {
            (Ok(a), Ok(b)) => assert_eq!(a, b, "{s}"),
            (Err(e), Err(f)) => assert_eq!(e.message(), f.to_string(), "{s}"),
            _ => panic!("{s}"),
        }
    }
}

#[test]
fn commit_references() {
    assert!(check_reference("HEAD~1").is_ok());
    assert!(check_reference("v1.0").is_ok());
    let message = "Pass one commit SHA or Git reference to --commit";
    assert_eq!(check_reference("").err().unwrap(), message);
    assert_eq!(check_reference("-x").err().unwrap(), message);
    assert_eq!(check_reference("a\u{7}b").err().unwrap(), message);
    assert_eq!(check_reference("a\u{85}b").err().unwrap(), message);
    assert!(is_full_sha(&"a".repeat(40)));
    assert!(is_full_sha(&"F".repeat(64)));
    assert!(!is_full_sha(&"a".repeat(39)));
    assert!(!is_full_sha(&"g".repeat(40)));
    assert!(!is_full_sha("HEAD"));
    assert_eq!(
        unresolved("main"),
        "Could not resolve 'main' to exactly one commit; use a full SHA or an available Git reference"
    );
    assert_eq!(history_limit(None), 250);
    assert_eq!(history_limit(Some(3)), 3);
}

#[test]
fn commit_option_conflicts() {
    let mut o = options();
    assert_eq!(requested_commit(&o).ok().unwrap(), None);
    o.commit = Some("abc".to_string());
    assert_eq!(requested_commit(&o).ok().unwrap(), Some("abc".to_string()));
    o.limit = Some(3);
    assert_eq!(
        requested_commit(&o).err().unwrap(),
        "--commit cannot be combined with history selection options"
    );
    o.limit = None;
    o.first_parent = true;
    assert!(requested_commit(&o).is_err());
}

#[test]
fn raw_objects_name_their_parents() {
    assert!(lists_parent("tree abc\nparent def\nauthor x\n\nmessage"));
    assert!(!lists_parent("tree abc\nauthor x\n\nparent y"));
    assert!(lists_parent("tree a\r\nparent b"));
    assert!(!lists_parent("tree a\n parent b"));
    assert!(!lists_parent(""));
    assert_eq!(field_count("abc"), 1);
    assert_eq!(field_count("abc def\n"), 2);
    assert_eq!(field_count(""), 0);
}

#[test]
fn commit_metadata_fields() {
    let m = commit_metadata("abc\0p1 p2\0d1\0Ann\0d2\0Subject\n\nBody  \n").ok().unwrap();
    assert_eq!(m.sha, "abc");
    assert_eq!(m.parents, strings(&["p1", "p2"]));
    assert_eq!(m.date, "d1");
    assert_eq!(m.author, "Ann");
    assert_eq!(m.committed_at, "d2");
    assert_eq!(m.message, "Subject\n\nBody");
    let c = commit_record(m, strings(&["a.rs"]));
    assert!(c.merge);
    assert_eq!(c.files, strings(&["a.rs"]));
    assert_eq!(c.excluded_files, 0);
    let root = commit_metadata("abc\0\0d\0A\0d\0m").ok().unwrap();
    assert!(root.parents.is_empty());
    assert_eq!(
        commit_metadata("a\0b").err().unwrap(),
        "Unexpected Git commit metadata"
    );
    assert_eq!(changed_files("a.rs\0b.rs\0\0"), strings(&["a.rs", "b.rs"]));
    assert!(changed_files("").is_empty());
}

#[test]
fn review_order_puts_small_changes_first() {
    let mut sizes = Sizes::new();
    let batch = strings(&["s1", "s2", "s3"]);
    let stats = "s1\0\n3\t4\tsrc/a.rs\0s2\0\n1\t1\ttests/x.rs\0s3\0\n10\t0\tsrc/c.rs\0\n-\t-\tsrc/d.rs\0";
    sizes.record(stats, &batch);
    let ids = strings(&["s1", "s2", "s3", "s4"]);
    assert_eq!(sizes.order(&ids), strings(&["s2", "s1", "s3", "s4"]));
    let mut equal = Sizes::new();
    equal.record("b\0\n1\t1\tsrc/x.rs\0a\0\n1\t1\tsrc/y.rs\0", &strings(&["a", "b"]));
    assert_eq!(equal.order(&strings(&["b", "a"])), strings(&["b", "a"]));
}

#[test]
fn yes_or_no_answers() {
    assert!(reports_true("true\n"));
    assert!(reports_true("  true "));
    assert!(!reports_true("false\n"));
    assert!(!reports_true("True"));
    assert_eq!(toplevel_flag("true\n"), "--absolute-git-dir");
    assert_eq!(toplevel_flag("false\n"), "--show-toplevel");
}

#[test]
fn a_root_commit_whose_object_names_a_parent_is_refused() {
    let root = commit_metadata("abc\0\0d\0A\0d\0m").ok().unwrap();
    assert_eq!(
        check_parents(&root, "tree 1\nparent 2\nauthor A\n\nmessage").err().unwrap(),
        "Commit parent is outside available history"
    );
    assert!(check_parents(&root, "tree 1\nauthor A\n\nparent 2 in the message").is_ok());
    let child = commit_metadata("abc\0p1\0d\0A\0d\0m").ok().unwrap();
    assert!(check_parents(&child, "tree 1\nparent 2\n").is_ok());
}
