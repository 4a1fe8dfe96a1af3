use commit_miner::policy::eligible;

#[test]
fn scope() {
    for s in [
        "tests/x.rs",
        "src/x_test.go",
        "public/x.js",
        "a.md",
        "data.csv",
        "x.min.js",
        "tests/package.json",
        "examples/Cargo.lock",
        "node_modules/pkg/package.json",
        "data.json",
    ] {
        assert!(!eligible(s), "{s}");
    }
    for s in [
        "src/main.rs",
        "src/contest.py",
        "Makefile",
        "a.html",
        "Cargo.toml",
        "Cargo.lock",
        "frontend/package.json",
        "pnpm-lock.yaml",
        "requirements.txt",
        "requirements-dev.txt",
        "go.sum",
        "project.csproj",
    ] {
        assert!(eligible(s), "{s}");
    }
}

#[test]
fn directory_names_compare_in_lowercase() {
    assert!(!eligible("Docs/guide.rs"));
    assert!(!eligible("src/VENDOR/lib.c"));
    assert!(eligible("src/vendored/lib.c"));
}

#[test]
fn test_and_generated_names_are_excluded() {
    assert!(!eligible("src/FooTest.java"));
    assert!(!eligible("src/test_utils.py"));
    assert!(!eligible("src/app.spec.ts"));
    assert!(!eligible("src/types.d.ts"));
    assert!(!eligible("api/service.pb.go"));
    assert!(!eligible("web/app.bundle.js"));
}

#[test]
fn build_files_and_extensionless_names() {
    assert!(eligible("Dockerfile"));
    assert!(eligible("deploy/Jenkinsfile"));
    assert!(!eligible("LICENSE"));
    assert!(!eligible(""));
    assert!(eligible("lib/app.gemspec"));
}
