use commit_miner::model::Options;
use commit_miner::refresh::Refresh;
use commit_miner::walk::{Action, Reply, Step, Walk};

fn options() -> Options {
    Options {
        source: "repo".to_string(),
        commit: None,
        limit: None,
        since: None,
        until: None,
        first_parent: false,
        threshold: 0.5f64.to_bits(),
        concurrency: 8,
        cache: true,
    }
}

fn args(a: &[&str]) -> Vec<String> {
    a.iter().map(|s| s.to_string()).collect()
}

fn read(step: &Step) -> Vec<String> {
    match &step.action {
        Action::Read(a) => a.clone(),
        _ => panic!("expected a read"),
    }
}

fn out(s: &str) -> Reply {
    Reply::Output(s.to_string())
}

fn stage(step: &Step) -> Option<&str> {
    step.stage.as_deref()
}

const SHALLOW: [&str; 2] = ["rev-parse", "--is-shallow-repository"];

#[test]
fn a_local_shallow_history_is_never_fetched() {
    let o = Options { limit: Some(2), ..options() };
    let (mut w, step) = Walk::begin(&o, false);
    assert_eq!(stage(&step), Some("Reading commit history"));
    assert_eq!(read(&step), args(&["rev-list", "--topo-order", "--max-count=3", "HEAD", "--"]));
    let step = w.step(out("a\nb\n"));
    assert_eq!(read(&step), args(&SHALLOW));
    let step = w.step(out("true\n"));
    match step.action {
        Action::Fail(m, None) => assert_eq!(
            m,
            "Requested history reaches the local shallow boundary; fetch the required history yourself before scanning"
        ),
        _ => panic!("expected a failure"),
    }
}

#[test]
fn a_remote_clone_is_deepened_until_enough_commits_are_listed() {
    let o = Options { limit: Some(2), first_parent: true, ..options() };
    let (mut w, step) = Walk::begin(&o, true);
    assert_eq!(read(&step), args(&["rev-list", "--first-parent", "--max-count=3", "HEAD", "--"]));
    let step = w.step(out("a\nb\n"));
    assert_eq!(read(&step), args(&SHALLOW));
    let step = w.step(out("true"));
    assert_eq!(stage(&step), Some("Fetching more history · 2 commits available"));
    match &step.action {
        Action::Fetch(a, None) => assert_eq!(a, &args(&["fetch", "--deepen", "34", "--no-tags", "origin"])),
        _ => panic!("expected a fetch"),
    }
    let step = w.step(out(""));
    assert_eq!(read(&step), args(&["rev-list", "--first-parent", "--max-count=3", "HEAD", "--"]));
    let step = w.step(out("a\nb\nc\n"));
    match step.action {
        Action::Finish(ids) => assert_eq!(ids, args(&["a", "b"])),
        _ => panic!("expected the commits"),
    }
}

#[test]
fn a_complete_history_ends_when_a_fetch_adds_nothing() {
    let (mut w, _) = Walk::begin(&options(), true);
    w.step(out("a\n"));
    w.step(out("true"));
    w.step(out(""));
    match w.step(out("a\n")).action {
        Action::Finish(ids) => assert_eq!(ids, args(&["a"])),
        _ => panic!("expected the commits"),
    }
}

#[test]
fn a_requested_reference_is_resolved_and_never_fetched_by_name() {
    let o = Options { commit: Some("main~1".to_string()), ..options() };
    let (mut w, step) = Walk::begin(&o, true);
    assert_eq!(stage(&step), Some("Resolving commit · main~1"));
    match &step.action {
        Action::Try(a) => assert_eq!(a, &args(&["rev-parse", "--verify", "--end-of-options", "main~1^{commit}"])),
        _ => panic!("expected a resolution"),
    }
    let step = w.step(Reply::Failed("unknown revision".to_string(), false));
    assert_eq!(read(&step), args(&SHALLOW));
    let step = w.step(out("false\n"));
    match step.action {
        Action::Fail(m, Some(cause)) => {
            assert_eq!(
                m,
                "Could not resolve 'main~1' to exactly one commit; use a full SHA or an available Git reference"
            );
            assert_eq!(cause, "unknown revision");
        }
        _ => panic!("expected a failure"),
    }
}

#[test]
fn a_full_object_id_is_fetched_and_its_shallow_parent_restored() {
    let sha = "0123456789abcdef0123456789abcdef01234567";
    let o = Options { commit: Some(sha.to_string()), ..options() };
    let (mut w, _) = Walk::begin(&o, true);
    let step = w.step(Reply::Failed("missing".to_string(), false));
    assert_eq!(stage(&step), Some("Fetching requested commit from origin"));
    match &step.action {
        Action::Fetch(a, Some(why)) => {
            assert_eq!(a, &args(&["fetch", "--depth=2", "--no-tags", "origin", sha]));
            assert_eq!(why, "Could not fetch the requested commit from origin");
        }
        _ => panic!("expected a fetch"),
    }
    let step = w.step(out(""));
    assert!(matches!(step.action, Action::Try(_)));
    let step = w.step(out(&format!("{sha}\n")));
    assert_eq!(read(&step), args(&SHALLOW));
    let step = w.step(out("true"));
    assert_eq!(read(&step), args(&["rev-list", "--parents", "-n", "1", sha, "--"]));
    let step = w.step(out(sha));
    assert_eq!(read(&step), args(&["cat-file", "-p", sha]));
    let step = w.step(out("tree 1\nparent 2\n\nmessage"));
    assert_eq!(stage(&step), Some("Fetching parent history for the selected diff"));
    let step = w.step(out(""));
    assert_eq!(read(&step), args(&["rev-list", "--parents", "-n", "1", sha, "--"]));
    let step = w.step(out(&format!("{sha} parent")));
    assert_eq!(stage(&step), Some(format!("Selected commit · {sha}").as_str()));
    match step.action {
        Action::Finish(ids) => assert_eq!(ids, vec![sha.to_string()]),
        _ => panic!("expected the commit"),
    }
}

#[test]
fn a_local_commit_with_a_missing_parent_is_refused() {
    let o = Options { commit: Some("HEAD".to_string()), ..options() };
    let (mut w, _) = Walk::begin(&o, false);
    w.step(out("abc\n"));
    w.step(out("true"));
    w.step(out("abc"));
    match w.step(out("tree 1\nparent 2\n")).action {
        Action::Fail(m, None) => assert!(m.starts_with("Selected commit's parent is outside")),
        _ => panic!("expected a failure"),
    }
}

#[test]
fn requests_that_cannot_be_walked() {
    let o = Options { commit: Some("abc".to_string()), limit: Some(1), ..options() };
    match Walk::begin(&o, true).1.action {
        Action::Fail(m, None) => assert_eq!(m, "--commit cannot be combined with history selection options"),
        _ => panic!("expected a failure"),
    }
    let o = Options { commit: Some("--all".to_string()), ..options() };
    match Walk::begin(&o, true).1.action {
        Action::Fail(m, None) => assert_eq!(m, "Pass one commit SHA or Git reference to --commit"),
        _ => panic!("expected a failure"),
    }
    let o = Options { limit: Some(usize::MAX), ..options() };
    assert!(matches!(Walk::begin(&o, true).1.action, Action::Overflow));
}

#[test]
fn a_date_range_lists_commits_newest_first() {
    let o = Options { since: Some("2020-01-01".to_string()), limit: Some(2), ..options() };
    let (mut w, step) = Walk::begin(&o, false);
    assert_eq!(read(&step), args(&SHALLOW));
    let step = w.step(out("false\n"));
    assert_eq!(read(&step), args(&["rev-list", "--timestamp", "--topo-order", "HEAD", "--"]));
    let step = w.step(out("1577836800 a\n1577836900 b\n1500000000 c\n1577836950 d\n"));
    match step.action {
        Action::Finish(ids) => assert_eq!(ids, args(&["d", "b"])),
        _ => panic!("expected the commits"),
    }
    let o = Options { until: Some("2020-02-30".to_string()), ..options() };
    let (mut w, _) = Walk::begin(&o, true);
    match w.step(out("false")).action {
        Action::Fail(m, None) => assert_eq!(m, "Invalid calendar date"),
        _ => panic!("expected a failure"),
    }
}

#[test]
fn a_saved_clone_is_checked_fetched_and_advanced() {
    let (mut r, step) = Refresh::begin("https://github.com/o/r");
    assert_eq!(read(&step), args(&["config", "--get", "remote.origin.url"]));
    let step = r.step(out("HTTPS://GitHub.com/o/r\n"));
    assert_eq!(stage(&step), Some("Fetching latest commits from origin"));
    assert_eq!(read(&step), args(&["rev-parse", "--verify", "HEAD"]));
    let step = r.step(out("aaaaaaaaaa\n"));
    match &step.action {
        Action::Fetch(a, Some(why)) => {
            assert_eq!(a, &args(&["fetch", "--no-tags", "origin"]));
            assert_eq!(why, "Could not refresh the saved repository; scan stopped to avoid stale results");
        }
        _ => panic!("expected a fetch"),
    }
    let step = r.step(out(""));
    match &step.action {
        Action::Try(a) => assert_eq!(a, &args(&["rev-parse", "--verify", "@{upstream}^{commit}"])),
        _ => panic!("expected the upstream"),
    }
    let step = r.step(out("bbbbbbbbbb\n"));
    match &step.action {
        Action::Try(a) => assert_eq!(a, &args(&["update-ref", "HEAD", "bbbbbbbbbb", "aaaaaaaaaa"])),
        _ => panic!("expected an update"),
    }
    let step = r.step(out(""));
    assert_eq!(stage(&step), Some("Repository updated · aaaaaaa → bbbbbbb"));
    assert!(matches!(step.action, Action::Finish(ref ids) if ids.is_empty()));
}

#[test]
fn a_saved_clone_with_another_origin_is_never_fetched() {
    let (mut r, _) = Refresh::begin("https://github.com/o/r");
    match r.step(out("https://github.com/evil/r\n")).action {
        Action::Fail(m, None) => assert_eq!(m, "Existing repository has an unexpected origin"),
        _ => panic!("expected a failure"),
    }
    let (mut r, _) = Refresh::begin("https://github.com/o/r");
    r.step(out("https://github.com/o/r"));
    r.step(out("abc"));
    r.step(out(""));
    let step = r.step(out("abc\n"));
    assert_eq!(stage(&step), Some("Repository is up to date"));
    let (mut r, _) = Refresh::begin("https://github.com/o/r");
    r.step(out("https://github.com/o/r"));
    r.step(out("abc"));
    r.step(out(""));
    match r.step(Reply::Failed("no upstream".to_string(), false)).action {
        Action::Fail(m, Some(cause)) => {
            assert_eq!(m, "Saved repository has no available upstream branch");
            assert_eq!(cause, "no upstream");
        }
        _ => panic!("expected a failure"),
    }
}
