use commit_miner::model::{Options, Progress, Scan, Summary};
use commit_miner::store::{newest_first, new_scan, recover, valid, Store};

fn options() -> Options {
    Options {
        source: ".".to_string(),
        commit: None,
        limit: None,
        since: None,
        until: None,
        first_parent: false,
        threshold: 0.5f64.to_bits(),
        concurrency: 8,
        cache: true,
    }
}

#[test]
fn saved_files_stay_in_the_data_directory() {
    let store = Store::new("/data".to_string());
    assert_eq!(store.scans(), "/data/scans");
    assert_eq!(store.scan_file("ab-12").ok().unwrap(), "/data/scans/ab-12.json");
    assert_eq!(store.scan_file("../x").err().unwrap(), "Invalid saved result identifier");
    assert!(store.scan_file("").is_err());
    assert_eq!(Store::new("/data/".to_string()).scan_file("ab").ok().unwrap(), "/data/scans/ab.json");
    assert_eq!(Store::new(String::new()).scans(), "scans");
    assert_eq!(store.commits_dir("ab").ok().unwrap(), "/data/scans/ab-commits");
    assert_eq!(store.commit_file("ab", "cd").ok().unwrap(), "/data/scans/ab-commits/cd.json");
    assert!(store.commit_file("ab", "c/d").is_err());
    assert_eq!(valid("0aF-9").ok().unwrap(), "0aF-9");
    assert!(valid("0g").is_err());
}

#[test]
fn new_scans_start_running() {
    let s = new_scan("id".to_string(), options(), "2024".to_string(), 42);
    assert_eq!(s.summary.status, "running");
    assert_eq!(s.summary.progress.phase, "Preparing history");
    assert_eq!(s.owner_pid, 42);
    assert!(s.results.is_empty() && s.events.is_empty() && s.error.is_none() && s.selection.is_none());
}

#[test]
fn interrupted_scans_are_marked_failed() {
    let mut s = new_scan("id".to_string(), options(), "2024".to_string(), 42);
    s.summary.progress.active = 3;
    let (kept, changed) = recover(s, true);
    assert!(!changed);
    assert_eq!(kept.summary.status, "running");
    let (failed, changed) = recover(kept, false);
    assert!(changed);
    assert_eq!(failed.summary.status, "failed");
    assert_eq!(failed.summary.progress.phase, "Interrupted");
    assert_eq!(failed.summary.progress.active, 0);
    assert_eq!(
        failed.error.as_deref(),
        Some("The process stopped before the scan finished. Completed results are saved.")
    );
    let (again, changed) = recover(failed, false);
    assert!(!changed);
    assert_eq!(again.summary.status, "failed");
}

fn started(id: &str, at: &str) -> Scan {
    Scan {
        selection: None,
        summary: Summary {
            id: id.to_string(),
            status: "completed".to_string(),
            options: options(),
            started: at.to_string(),
            progress: Progress::default(),
        },
        results: vec![],
        events: vec![],
        owner_pid: 1,
        error: None,
    }
}

#[test]
fn saved_scans_newest_first() {
    let scans = vec![
        started("a", "2024-01-02T00:00:00Z"),
        started("b", "2024-03-01T00:00:00Z"),
        started("c", "2024-01-02T00:00:00Z"),
        started("d", "2023-12-31T00:00:00Z"),
    ];
    let ids: Vec<String> = newest_first(scans).into_iter().map(|s| s.summary.id).collect();
    assert_eq!(ids, vec!["b", "a", "c", "d"]);
}
