use commit_miner::git::{metadata_sections, parse_diff, GitProgress, Sections};
use commit_miner::model::DiffLine;
use sha2::{Digest, Sha256};

fn line(kind: &str, text: &str, old: Option<usize>, new: Option<usize>) -> (String, String, Option<usize>, Option<usize>) {
    (kind.to_string(), text.to_string(), old, new)
}

fn view(lines: &[DiffLine]) -> Vec<(String, String, Option<usize>, Option<usize>)> {
    lines.iter().map(|l| (l.kind.clone(), l.text.clone(), l.old_line, l.new_line)).collect()
}

fn json_line(l: &DiffLine) -> String {
    let number = |o: Option<usize>| o.map(|n| n.to_string()).unwrap_or_else(|| "null".to_string());
    format!(
        "{{\"kind\":{},\"text\":{},\"oldLine\":{},\"newLine\":{}}}",
        serde_json::to_string(&l.kind).unwrap(),
        serde_json::to_string(&l.text).unwrap(),
        number(l.old_line),
        number(l.new_line)
    )
}

fn section_id(sha: &str, path: &str, index: usize, lines: &[DiffLine]) -> String {
    let body: Vec<String> = lines.iter().map(json_line).collect();
    let key = format!(
        "[{},{},{},[{}]]",
        serde_json::to_string(sha).unwrap(),
        serde_json::to_string(path).unwrap(),
        index,
        body.join(",")
    );
    let hex: String = Sha256::digest(key.as_bytes()).iter().map(|b| format!("{b:02x}")).collect();
    hex[..24].to_string()
}

#[test]
fn unified_diffs_parse_into_numbered_hunks() {
    let patch = "diff --git a/x b/x\n@@ -3,2 +3,3 @@ fn f\n ctx\n-old\n+new\n+more\n\\ No newline\n@@ -bad +1 @@\n x\n@@ -10 +20 @@\r\n y\r\n";
    let hunks = parse_diff(patch);
    assert_eq!(hunks.len(), 2);
    assert_eq!(hunks[0].0, "@@ -3,2 +3,3 @@ fn f");
    assert_eq!(
        view(&hunks[0].1),
        vec![
            line("context", "ctx", Some(3), Some(3)),
            line("removed", "old", Some(4), None),
            line("added", "new", None, Some(4)),
            line("added", "more", None, Some(5)),
            line("meta", "\\ No newline", None, None),
            line("context", "x", Some(5), Some(6)),
        ]
    );
    assert_eq!(hunks[1].0, "@@ -10 +20 @@");
    assert_eq!(view(&hunks[1].1), vec![line("context", "y", Some(10), Some(20))]);
    assert!(parse_diff("no hunks here\n+x\n").is_empty());
    for (_, lines) in &hunks {
        for l in lines {
            match l.kind.as_str() {
                "added" => assert!(l.old_line.is_none() && l.new_line.is_some()),
                "removed" => assert!(l.old_line.is_some() && l.new_line.is_none()),
                "context" => assert!(l.old_line.is_some() && l.new_line.is_some()),
                _ => assert!(l.old_line.is_none() && l.new_line.is_none()),
            }
        }
    }
}

#[test]
fn sections_of_one_hunk() {
    let mut s = Sections::new("abc", "a.rs");
    for l in ["diff --git a/a.rs b/a.rs", "@@ -1,2 +1,2 @@", " ctx", "-old", "+new"] {
        s.line(l);
    }
    let items = s.finish();
    assert_eq!(items.len(), 1);
    let e = &items[0];
    assert_eq!(e.header, "@@ -1,2 +1,2 @@");
    assert_eq!(
        view(&e.lines),
        vec![
            line("meta", "diff --git a/a.rs b/a.rs", None, None),
            line("context", "ctx", Some(1), Some(1)),
            line("removed", "old", Some(2), None),
            line("added", "new", None, Some(2)),
        ]
    );
    assert_eq!((e.part, e.parts), (1, 1));
    assert_eq!((e.sha.as_str(), e.path.as_str()), ("abc", "a.rs"));
    assert_eq!(e.id, section_id("abc", "a.rs", 0, &e.lines));
}

#[test]
fn each_hunk_starts_a_section() {
    let mut s = Sections::new("abc", "a.rs");
    for l in ["@@ -1 +1 @@", "+a", "@@ -9 +9 @@", "-b"] {
        s.line(l);
    }
    let items = s.finish();
    assert_eq!(items.len(), 2);
    assert_eq!((items[0].part, items[0].parts, items[1].part, items[1].parts), (1, 2, 2, 2));
    assert_eq!(view(&items[1].lines), vec![line("removed", "b", Some(9), None)]);
    assert_eq!(items[1].header, "@@ -9 +9 @@");
    assert_eq!(items[1].id, section_id("abc", "a.rs", 1, &items[1].lines));
}

#[test]
fn binary_changes_and_long_lines() {
    let mut s = Sections::new("abc", "img.png");
    s.line("Binary files a/img.png and b/img.png differ");
    let items = s.finish();
    assert_eq!(items[0].header, "File metadata or binary change");
    assert_eq!(view(&items[0].lines), vec![line("meta", "Binary files a/img.png and b/img.png differ", None, None)]);
    let mut s = Sections::new("abc", "a.rs");
    s.line("@@ -1 +1 @@");
    s.line(&format!("+{}", "x".repeat(2000)));
    let items = s.finish();
    let lengths: Vec<usize> = items[0].lines.iter().map(|l| l.text.len()).collect();
    assert_eq!(lengths, vec![300, 300, 300, 300, 300, 300, 300, 250]);
    assert!(items[0].lines.iter().all(|l| l.new_line == Some(1)));
    assert!(Sections::new("abc", "a.rs").finish().is_empty());
}

#[test]
fn commit_metadata_is_one_kind_of_evidence() {
    let items = metadata_sections("abc", "(commit message)", "Subject\n\nBody");
    assert_eq!(items.len(), 1);
    assert_eq!(items[0].header, "Commit metadata; not executable code changes");
    assert_eq!(
        view(&items[0].lines),
        vec![line("meta", "Subject", None, None), line("meta", "", None, None), line("meta", "Body", None, None)]
    );
    assert_eq!(GitProgress::Stage("x").text(), "x");
    assert_eq!(GitProgress::Transfer("y").text(), "y");
}

#[test]
fn metadata_sections_have_short_ids() {
    assert!(metadata_sections("abc", "m", "").is_empty());
    let items = metadata_sections("abc", "m", "hello");
    assert_eq!(items.len(), 1);
    let e = &items[0];
    assert_eq!((e.sha.as_str(), e.path.as_str()), ("abc", "m"));
    assert_eq!(e.header, "Commit metadata; not executable code changes");
    assert_eq!(view(&e.lines), vec![line("meta", "hello", None, None)]);
    assert_eq!((e.part, e.parts), (1, 1));
    assert_eq!(e.id.len(), 24);
    assert_eq!(e.id, section_id("abc", "m", 0, &e.lines));
    let mut s = Sections::new("abc", "a.rs");
    for l in ["@@ -1 +1 @@", "+a", "@@ -9 +9 @@", "-b"] {
        s.line(l);
    }
    assert!(s.finish().iter().all(|e| e.id.len() == 24));
}
