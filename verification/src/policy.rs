//! Path-based scope selection. Source contents never participate in classification.
use crate::text::{
    after_last, before_last, chars_of, contains_any, ends_with, ends_with_any, in_words,
    is_prefix, is_suffix, infix_in, last_index, last_index_of, member, prefix_in, slice_chars,
    some_piece_in, spec_to_lowercase, starts_with, starts_with_any, string_from, suffix_in,
    to_lowercase, any_piece_in,
};
use vstd::prelude::*;

verus! {

pub const VERSION: &'static str = "source-and-dependency-v2";

/// Directory names whose contents are never reviewed.
pub open spec fn excluded_dirs() -> Seq<&'static str> {
    seq![
        "test", "tests", "__tests__", "spec", "specs", "__mocks__", "mocks", "fixture", "fixtures",
        "__fixtures__", "testdata", "testing", "e2e", "cypress", "__snapshots__", "example",
        "examples", "sample", "samples", "demo", "demos", "tutorial", "tutorials", "benchmark",
        "benchmarks", "doc", "docs", "documentation", "static", "public", "assets", "images",
        "fonts", "media", "node_modules", "vendor", "vendors", "third_party", "third-party", "dist",
        "build", "out", "target", "coverage", "generated", "__generated__", ".git", ".next",
        ".nuxt", ".cache", ".venv", "venv", "__pycache__", ".yarn", ".pnpm-store",
    ]
}

/// Dependency manifests and lockfiles, always reviewed.
pub open spec fn dependency_files() -> Seq<&'static str> {
    seq![
        "cargo.toml", "cargo.lock", "package.json", "package-lock.json", "npm-shrinkwrap.json",
        "yarn.lock", "pnpm-lock.yaml", "bun.lock", "bun.lockb", "deno.json", "deno.jsonc",
        "deno.lock", "go.mod", "go.sum", "go.work", "go.work.sum", "pyproject.toml", "poetry.lock",
        "uv.lock", "pipfile", "pipfile.lock", "requirements.txt", "setup.cfg", "setup.py",
        "gemfile", "gemfile.lock", "gems.rb", "gems.locked", "composer.json", "composer.lock",
        "pom.xml", "build.gradle", "build.gradle.kts", "settings.gradle", "settings.gradle.kts",
        "gradle.properties", "gradle.lockfile", "libs.versions.toml", "packages.config",
        "packages.lock.json", "directory.packages.props", "paket.dependencies", "paket.lock",
        "mix.exs", "mix.lock", "rebar.config", "rebar.lock", "pubspec.yaml", "pubspec.lock",
        "package.swift", "package.resolved", "podfile", "podfile.lock", "cartfile",
        "cartfile.resolved", "conanfile.txt", "conanfile.py", "conan.lock", "vcpkg.json",
        "vcpkg-configuration.json",
    ]
}

pub open spec fn project_extensions() -> Seq<&'static str> {
    seq!["csproj", "fsproj", "vbproj", "gemspec"]
}

pub open spec fn test_markers() -> Seq<&'static str> {
    seq!["test", "tests", "spec", "specs", "stories", "story", "snap"]
}

pub open spec fn test_prefixes() -> Seq<&'static str> {
    seq!["test_", "test-"]
}

pub open spec fn test_suffixes() -> Seq<&'static str> {
    seq!["_test", "_tests", "-test", "_spec", "-spec"]
}

pub open spec fn class_test_suffixes() -> Seq<&'static str> {
    seq!["Test", "Tests", "Spec"]
}

pub open spec fn generated_infixes() -> Seq<&'static str> {
    seq![".min.", ".bundle.", ".generated.", ".g."]
}

pub open spec fn generated_suffixes() -> Seq<&'static str> {
    seq![".pb.go", "_pb2.py", ".d.ts", ".d.mts", ".d.cts"]
}

pub open spec fn build_files() -> Seq<&'static str> {
    seq![
        "dockerfile", "containerfile", "makefile", "gnumakefile", "rakefile", "gemfile",
        "jenkinsfile", "vagrantfile",
    ]
}

pub open spec fn source_extensions() -> Seq<&'static str> {
    seq![
        "js", "jsx", "mjs", "cjs", "ts", "tsx", "mts", "cts", "vue", "svelte", "astro", "py", "pyw",
        "pyx", "pxd", "rb", "php", "phtml", "go", "rs", "c", "h", "cc", "hh", "cpp", "hpp", "cxx",
        "hxx", "m", "mm", "cs", "fs", "fsx", "vb", "java", "kt", "kts", "scala", "sc", "swift",
        "dart", "ex", "exs", "erl", "hrl", "hs", "lhs", "clj", "cljs", "cljc", "edn", "lua", "pl",
        "pm", "r", "jl", "sh", "bash", "zsh", "fish", "ps1", "psm1", "bat", "cmd", "sql", "sol",
        "vy", "zig", "nim", "ml", "mli", "ocaml", "elm", "groovy", "gvy", "gradle", "tf", "hcl",
        "proto", "graphql", "gql", "wasmtext", "wat", "asm", "s", "v", "sv", "vhd", "vhdl", "f",
        "f90", "f95", "pas", "d", "tcl", "raku", "cr", "html", "htm", "ejs", "hbs", "mustache",
        "erb", "twig", "jinja", "jinja2", "j2",
    ]
}

/// `name` has a `.` and what follows the last one is one of `words`.
pub open spec fn extension_in(name: Seq<char>, words: Seq<&str>) -> bool {
    last_index_of(name, '.') >= 0 && in_words(after_last(name, '.'), words)
}

/// The file name marks a test, spec, story or snapshot.
pub open spec fn test_named(name: Seq<char>, original: Seq<char>) -> bool {
    let stem = before_last(name, '.');
    let original_stem = before_last(original, '.');
    ||| some_piece_in(name, '.', false, true, test_markers())
    ||| prefix_in(stem, test_prefixes())
    ||| suffix_in(stem, test_suffixes())
    ||| suffix_in(original_stem, class_test_suffixes())
}

/// The file name marks minified, bundled or generated output.
pub open spec fn generated_named(name: Seq<char>) -> bool {
    infix_in(name, generated_infixes()) || suffix_in(name, generated_suffixes())
}

/// Whether the changed file at `path` is reviewed: no directory on the way is an
/// excluded one (compared in lowercase); dependency manifests are reviewed; test
/// and generated files are not; build files and source extensions are.
pub open spec fn spec_eligible(path: Seq<char>) -> bool {
    let original = after_last(path, '/');
    let name = spec_to_lowercase(original);
    if some_piece_in(path, '/', true, false, excluded_dirs()) {
        false
    } else if in_words(name, dependency_files()) || (is_prefix("requirements-"@, name)
        && is_suffix(".txt"@, name)) || extension_in(name, project_extensions()) {
        true
    } else if test_named(name, original) {
        false
    } else if generated_named(name) {
        false
    } else if in_words(name, build_files()) {
        true
    } else {
        extension_in(name, source_extensions())
    }
}

fn has_extension_in(name: &[char], words: &[&str]) -> (r: bool)
    ensures
        r == extension_in(name@, words@),
{
    match last_index(name, '.') {
        Some(i) => {
            let ext = slice_chars(name, i + 1, name.len());
            member(&ext, words)
        },
        None => false,
    }
}

fn stem_of(name: &[char]) -> (r: Vec<char>)
    ensures
        r@ == before_last(name@, '.'),
{
    match last_index(name, '.') {
        Some(i) => slice_chars(name, 0, i),
        None => slice_chars(name, 0, name.len()),
    }
}

pub fn eligible(path: &str) -> (r: bool)
    ensures
        r == spec_eligible(path@),
{
    let p = chars_of(path);
    let original = match last_index(&p, '/') {
        Some(i) => slice_chars(&p, i + 1, p.len()),
        None => slice_chars(&p, 0, p.len()),
    };
    let original_string = string_from(&original);
    let lowered = to_lowercase(original_string.as_str());
    let name = chars_of(lowered.as_str());
    let excluded: Vec<&str> = vec![
        "test", "tests", "__tests__", "spec", "specs", "__mocks__", "mocks", "fixture", "fixtures",
        "__fixtures__", "testdata", "testing", "e2e", "cypress", "__snapshots__", "example",
        "examples", "sample", "samples", "demo", "demos", "tutorial", "tutorials", "benchmark",
        "benchmarks", "doc", "docs", "documentation", "static", "public", "assets", "images",
        "fonts", "media", "node_modules", "vendor", "vendors", "third_party", "third-party", "dist",
        "build", "out", "target", "coverage", "generated", "__generated__", ".git", ".next",
        ".nuxt", ".cache", ".venv", "venv", "__pycache__", ".yarn", ".pnpm-store",
    ];
    assert(excluded@ == excluded_dirs());
    if any_piece_in(&p, '/', true, false, &excluded) {
        return false;
    }
    let dependencies: Vec<&str> = vec![
        "cargo.toml", "cargo.lock", "package.json", "package-lock.json", "npm-shrinkwrap.json",
        "yarn.lock", "pnpm-lock.yaml", "bun.lock", "bun.lockb", "deno.json", "deno.jsonc",
        "deno.lock", "go.mod", "go.sum", "go.work", "go.work.sum", "pyproject.toml", "poetry.lock",
        "uv.lock", "pipfile", "pipfile.lock", "requirements.txt", "setup.cfg", "setup.py",
        "gemfile", "gemfile.lock", "gems.rb", "gems.locked", "composer.json", "composer.lock",
        "pom.xml", "build.gradle", "build.gradle.kts", "settings.gradle", "settings.gradle.kts",
        "gradle.properties", "gradle.lockfile", "libs.versions.toml", "packages.config",
        "packages.lock.json", "directory.packages.props", "paket.dependencies", "paket.lock",
        "mix.exs", "mix.lock", "rebar.config", "rebar.lock", "pubspec.yaml", "pubspec.lock",
        "package.swift", "package.resolved", "podfile", "podfile.lock", "cartfile",
        "cartfile.resolved", "conanfile.txt", "conanfile.py", "conan.lock", "vcpkg.json",
        "vcpkg-configuration.json",
    ];
    assert(dependencies@ == dependency_files());
    let projects: Vec<&str> = vec!["csproj", "fsproj", "vbproj", "gemspec"];
    assert(projects@ == project_extensions());
    if member(&name, &dependencies) || (starts_with(&name, "requirements-") && ends_with(
        &name,
        ".txt",
    )) || has_extension_in(&name, &projects) {
        return true;
    }
    let stem = stem_of(&name);
    let original_stem = stem_of(&original);
    let markers: Vec<&str> = vec!["test", "tests", "spec", "specs", "stories", "story", "snap"];
    assert(markers@ == test_markers());
    let prefixes: Vec<&str> = vec!["test_", "test-"];
    assert(prefixes@ == test_prefixes());
    let suffixes: Vec<&str> = vec!["_test", "_tests", "-test", "_spec", "-spec"];
    assert(suffixes@ == test_suffixes());
    let class_suffixes: Vec<&str> = vec!["Test", "Tests", "Spec"];
    assert(class_suffixes@ == class_test_suffixes());
    if any_piece_in(&name, '.', false, true, &markers) || starts_with_any(&stem, &prefixes)
        || ends_with_any(&stem, &suffixes) || ends_with_any(&original_stem, &class_suffixes) {
        return false;
    }
    let infixes: Vec<&str> = vec![".min.", ".bundle.", ".generated.", ".g."];
    assert(infixes@ == generated_infixes());
    let generated: Vec<&str> = vec![".pb.go", "_pb2.py", ".d.ts", ".d.mts", ".d.cts"];
    assert(generated@ == generated_suffixes());
    if contains_any(&name, &infixes) || ends_with_any(&name, &generated) {
        return false;
    }
    let builds: Vec<&str> = vec![
        "dockerfile", "containerfile", "makefile", "gnumakefile", "rakefile", "gemfile",
        "jenkinsfile", "vagrantfile",
    ];
    assert(builds@ == build_files());
    if member(&name, &builds) {
        return true;
    }
    let extensions: Vec<&str> = vec![
        "js", "jsx", "mjs", "cjs", "ts", "tsx", "mts", "cts", "vue", "svelte", "astro", "py", "pyw",
        "pyx", "pxd", "rb", "php", "phtml", "go", "rs", "c", "h", "cc", "hh", "cpp", "hpp", "cxx",
        "hxx", "m", "mm", "cs", "fs", "fsx", "vb", "java", "kt", "kts", "scala", "sc", "swift",
        "dart", "ex", "exs", "erl", "hrl", "hs", "lhs", "clj", "cljs", "cljc", "edn", "lua", "pl",
        "pm", "r", "jl", "sh", "bash", "zsh", "fish", "ps1", "psm1", "bat", "cmd", "sql", "sol",
        "vy", "zig", "nim", "ml", "mli", "ocaml", "elm", "groovy", "gvy", "gradle", "tf", "hcl",
        "proto", "graphql", "gql", "wasmtext", "wat", "asm", "s", "v", "sv", "vhd", "vhdl", "f",
        "f90", "f95", "pas", "d", "tcl", "raku", "cr", "html", "htm", "ejs", "hbs", "mustache",
        "erb", "twig", "jinja", "jinja2", "j2",
    ];
    assert(extensions@ == source_extensions());
    has_extension_in(&name, &extensions)
}

} // verus!
