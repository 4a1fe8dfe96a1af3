use commit_miner::git::{commit_evidence, failure_message, ProgressReader};
use commit_miner::model::{Commit, Evidence};
use sha2::{Digest, Sha256};

fn commit(files: &[&str], excluded: usize) -> Commit {
    Commit {
        sha: "abc".to_string(),
        parents: vec![],
        date: String::new(),
        author: String::new(),
        message: String::new(),
        committed_at: String::new(),
        files: files.iter().map(|s| s.to_string()).collect(),
        merge: false,
        excluded_files: excluded,
    }
}

fn digest(text: &str) -> String {
    Sha256::digest(text.as_bytes()).iter().map(|b| format!("{b:02x}")).collect()
}

#[test]
fn unreadable_diffs_leave_a_warning_and_a_stand_in() {
    let read = Evidence {
        id: "x".to_string(),
        sha: "abc".to_string(),
        path: "a.rs".to_string(),
        header: "h".to_string(),
        lines: vec![],
        part: 1,
        parts: 1,
    };
    let (evidence, warnings) =
        commit_evidence(&commit(&["a.rs", "b.rs"], 0), vec![Ok(vec![read]), Err("boom".to_string())]);
    assert_eq!(warnings, vec!["Unavailable diff for b.rs: boom".to_string()]);
    assert_eq!(evidence.len(), 2);
    assert_eq!(evidence[0].id, "x");
    assert_eq!(evidence[1].path, "b.rs");
    assert_eq!(evidence[1].header, "Unavailable diff for b.rs: boom");
    assert_eq!(evidence[1].id, digest("abc:b.rs:unavailable")[..24]);
    assert_eq!((evidence[1].part, evidence[1].parts), (1, 1));
}

#[test]
fn a_commit_always_has_evidence() {
    let (evidence, warnings) = commit_evidence(&commit(&[], 0), vec![]);
    assert!(warnings.is_empty());
    assert_eq!(evidence.len(), 1);
    assert_eq!(evidence[0].path, "(no textual changes)");
    assert_eq!(evidence[0].header, "Empty commit: no changed files");
    assert_eq!(evidence[0].id, digest("abc")[..24]);
    let (evidence, _) = commit_evidence(&commit(&["a.rs"], 2), vec![Ok(vec![])]);
    assert_eq!(
        evidence[0].header,
        "No diff supplied: all changed files excluded by the file policy"
    );
}

#[test]
fn transfer_progress_lines() {
    let mut reader = ProgressReader::new();
    let lines = reader.feed(b"Counting 10%\rCounting 20%\r\n\n  Receiv");
    assert_eq!(lines, vec!["Counting 10%".to_string(), "Counting 20%".to_string()]);
    assert_eq!(reader.feed(b"ing \xff ok  "), Vec::<String>::new());
    assert_eq!(reader.finish(), Some("Receiving \u{fffd} ok".to_string()));
    let mut long = ProgressReader::new();
    let text = vec![b'a'; 9000];
    assert!(long.feed(&text).is_empty());
    let lines = long.feed(b"\n");
    assert_eq!(lines[0].len(), 8192);
    assert_eq!(long.finish(), None);
    assert_eq!(
        failure_message(""),
        "Git operation failed. Check repository access, network, and available history."
    );
    assert_eq!(failure_message("fatal: x"), "Git operation failed. fatal: x");
}
