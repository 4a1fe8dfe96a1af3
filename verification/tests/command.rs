use commit_miner::command::{
    environment, withheld, allowed_protocols, clone_args, deepen_arg, diff_tree_args, file_diff_args, max_count_arg,
    network_args, numstat_args, prefix_args, traversal,
};

fn strings(v: &[&str]) -> Vec<String> {
    v.iter().map(|s| s.to_string()).collect()
}

#[test]
fn every_git_process_is_hardened() {
    let args = prefix_args(Some("/repo"));
    assert_eq!(args.len(), 26);
    assert_eq!(&args[..4], &strings(&["--no-pager", "--literal-pathspecs", "-c", "core.hooksPath=/dev/null"])[..]);
    assert_eq!(&args[22..], &strings(&["-c", "protocol.allow=never", "-C", "/repo"])[..]);
    assert_eq!(prefix_args(None).len(), 24);
    assert_eq!(allowed_protocols(true), "https");
    assert_eq!(allowed_protocols(false), "");
}

#[test]
fn network_and_clone_commands() {
    assert_eq!(
        network_args(&strings(&["fetch", "--no-tags", "origin"])),
        strings(&["fetch", "--progress", "--no-recurse-submodules", "--no-auto-maintenance", "--no-tags", "origin"])
    );
    assert_eq!(
        clone_args(1, "https://github.com/o/r.git", "/d/x.partial"),
        strings(&[
            "clone", "--progress", "--no-checkout", "--no-recurse-submodules", "--template=",
            "--depth", "1", "--", "https://github.com/o/r.git", "/d/x.partial",
        ])
    );
}

#[test]
fn listing_commands() {
    assert_eq!(
        diff_tree_args(&strings(&["p1", "p2"]), "s"),
        strings(&["diff-tree", "--root", "--no-commit-id", "--name-only", "-r", "-z", "--no-renames", "p1", "s", "--"])
    );
    assert_eq!(diff_tree_args(&vec![], "s").len(), 9);
    assert_eq!(
        file_diff_args("p", "s", "a.rs"),
        strings(&["diff", "--no-ext-diff", "--no-textconv", "--no-color", "--no-renames", "--unified=20", "p", "s", "--", "a.rs"])
    );
    let n = numstat_args(&strings(&["a", "b"]));
    assert_eq!(n.len(), 11);
    assert_eq!(&n[8..], &strings(&["a", "b", "--"])[..]);
    assert_eq!(traversal(true), "--first-parent");
    assert_eq!(traversal(false), "--topo-order");
    assert_eq!(max_count_arg(250), "--max-count=251");
    assert_eq!(deepen_arg(250), "282");
}

#[test]
fn git_environment() {
    assert!(withheld("GIT_DIR"));
    assert!(withheld("GIT_"));
    assert!(withheld("TYPESAFE_API_KEY"));
    assert!(!withheld("GIT"));
    assert!(!withheld("HOME"));
    assert!(!withheld("MY_GIT_DIR"));
    let pairs = |v: Vec<(String, String)>| v.into_iter().map(|(k, v)| format!("{k}={v}")).collect::<Vec<_>>();
    assert_eq!(
        pairs(environment(true)),
        strings(&[
            "GIT_ALLOW_PROTOCOL=https",
            "GIT_NO_LAZY_FETCH=1",
            "GIT_TERMINAL_PROMPT=0",
            "GIT_LFS_SKIP_SMUDGE=1",
            "GIT_OPTIONAL_LOCKS=0",
        ])
    );
    assert_eq!(pairs(environment(false))[0], "GIT_ALLOW_PROTOCOL=");
}
