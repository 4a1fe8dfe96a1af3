use commit_miner::remote::{check_managed_config, check_origin, github_url, managed_name, origin_is};
use sha2::{Digest, Sha256};

#[test]
fn github_addresses() {
    assert_eq!(github_url("https://github.com/Owner/Repo").ok().unwrap(), "https://github.com/Owner/Repo.git");
    assert_eq!(github_url("https://github.com/o/r.git/").ok().unwrap(), "https://github.com/o/r.git");
    let usage = "Use https://github.com/owner/repository";
    assert_eq!(github_url("http://github.com/o/r").err().unwrap(), usage);
    assert_eq!(github_url("https://github.com/o").err().unwrap(), usage);
    assert_eq!(github_url("https://github.com/o/r/x").err().unwrap(), usage);
    assert_eq!(github_url("https://user@github.com/o/r").err().unwrap(), usage);
    assert_eq!(github_url("https://github.com/o/r?x=1").err().unwrap(), usage);
    assert_eq!(github_url("https://gitlab.com/o/r").err().unwrap(), usage);
    assert_eq!(github_url("not a url").err().unwrap(), usage);
    assert_eq!(github_url("https://github.com/o/r%20x").err().unwrap(), "Invalid GitHub repository name");
}

#[test]
fn managed_clones_keep_to_their_own_configuration() {
    let ok = "core.bare\nfalse\0remote.origin.url\nhttps://github.com/o/r.git\0branch.main.remote\norigin\0branch.main.merge\nrefs/heads/main\0";
    assert!(check_managed_config(ok).is_ok());
    assert_eq!(
        check_managed_config("core.bare\nfalse\0core.sshCommand\nx\0").err().unwrap(),
        "Saved repository contains unsupported Git configuration (core.sshCommand); use a fresh data directory"
    );
    assert!(check_managed_config("branch.main.pushRemote\nx\0").is_err());
    assert!(check_origin("https://github.com/o/r.git\n", "https://github.com/O/R.git\n").is_ok());
    assert_eq!(
        check_origin("https://github.com/o/r.git", "https://github.com/o/other.git").err().unwrap(),
        "Git URL rewriting changed the saved repository's origin"
    );
    assert!(origin_is(" https://GitHub.com/o/r.git\n", "https://github.com/o/r.git"));
    assert!(!origin_is("https://github.com/o/x.git", "https://github.com/o/r.git"));
    let hex: String = Sha256::digest(b"https://github.com/o/r.git").iter().map(|b| format!("{b:02x}")).collect();
    assert_eq!(managed_name("https://github.com/O/R.git"), hex[..20]);
}
