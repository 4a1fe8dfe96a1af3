//! The Git command lines a scan runs. Every Git process gets the same protections:
//! no pager, literal pathspecs, no hooks, helpers, lazy fetches or automatic
//! maintenance; network operations add progress output and skip submodules.
use crate::text::{append_chars, decimal_chars, push_decimal_chars, string_from};
use vstd::prelude::*;

verus! {

pub open spec fn strs_view(v: Seq<&str>) -> Seq<Seq<char>> {
    v.map_values(|s: &str| s@)
}

pub open spec fn args_view(v: Seq<String>) -> Seq<Seq<char>> {
    v.map_values(|s: String| s@)
}

/// The `-c` settings every Git process runs with.
pub open spec fn protective_settings() -> Seq<&'static str> {
    seq![
        "core.hooksPath=/dev/null",
        "core.fsmonitor=false",
        "core.quotePath=true",
        "color.ui=false",
        "core.alternateRefsCommand=:",
        "log.showSignature=false",
        "gc.auto=0",
        "maintenance.auto=false",
        "fetch.recurseSubmodules=false",
        "submodule.recurse=false",
        "protocol.allow=never",
    ]
}

/// `-c` before each protective setting.
pub open spec fn settings_args(settings: Seq<Seq<char>>) -> Seq<Seq<char>>
    decreases settings.len(),
{
    if settings.len() == 0 {
        seq![]
    } else {
        settings_args(settings.drop_last()) + seq!["-c"@, settings.last()]
    }
}

/// The arguments that precede every Git subcommand: no pager, literal pathspecs, the
/// protective settings, and the repository directory when there is one.
pub open spec fn spec_prefix_args(dir: Option<Seq<char>>) -> Seq<Seq<char>> {
    seq!["--no-pager"@, "--literal-pathspecs"@] + settings_args(strs_view(protective_settings()))
        + match dir {
        Some(d) => seq!["-C"@, d],
        None => seq![],
    }
}

fn owned(s: &str) -> (r: String)
    ensures
        r@ == s@,
{
    String::from_str(s)
}

pub fn prefix_args(dir: Option<&str>) -> (r: Vec<String>)
    ensures
        args_view(r@) == spec_prefix_args(
            match dir {
                Some(d) => Some(d@),
                None => None,
            },
        ),
{
    let settings: [&str; 11] = [
        "core.hooksPath=/dev/null",
        "core.fsmonitor=false",
        "core.quotePath=true",
        "color.ui=false",
        "core.alternateRefsCommand=:",
        "log.showSignature=false",
        "gc.auto=0",
        "maintenance.auto=false",
        "fetch.recurseSubmodules=false",
        "submodule.recurse=false",
        "protocol.allow=never",
    ];
    assert(settings@ =~= protective_settings());
    let mut out: Vec<String> = Vec::new();
    out.push(owned("--no-pager"));
    out.push(owned("--literal-pathspecs"));
    let mut i: usize = 0;
    let ghost head = seq!["--no-pager"@, "--literal-pathspecs"@];
    assert(args_view(out@) =~= head);
    assert(strs_view(settings@).take(0) =~= Seq::<Seq<char>>::empty());
    while i < 11
        invariant
            i <= 11,
            settings@ == protective_settings(),
            head == seq!["--no-pager"@, "--literal-pathspecs"@],
            args_view(out@) == head + settings_args(strs_view(settings@).take(i as int)),
        decreases 11 - i,
    {
        let ghost before = out@;
        out.push(owned("-c"));
        out.push(owned(settings[i]));
        proof {
            let v = strs_view(settings@);
            assert(v.take(i + 1).drop_last() =~= v.take(i as int));
            assert(v.take(i + 1).last() == settings@[i as int]@);
            assert(args_view(out@) =~= args_view(before) + seq!["-c"@, settings@[i as int]@]);
        }
        i = i + 1;
    }
    assert(strs_view(settings@).take(11) =~= strs_view(protective_settings()));
    match dir {
        Some(d) => {
            let ghost before = out@;
            out.push(owned("-C"));
            out.push(owned(d));
            assert(args_view(out@) =~= args_view(before) + seq!["-C"@, d@]);
        },
        None => {
            assert(args_view(out@) =~= args_view(out@) + Seq::<Seq<char>>::empty());
        },
    }
    out
}

/// The transports Git may use: HTTPS for network operations, none otherwise.
pub fn allowed_protocols(network: bool) -> (r: &'static str)
    ensures
        r@ == if network {
            "https"@
        } else {
            ""@
        },
{
    if network {
        "https"
    } else {
        ""
    }
}

/// A network subcommand with progress output and without submodules or automatic
/// maintenance: the three flags follow the subcommand's name.
pub open spec fn spec_network_args(args: Seq<Seq<char>>) -> Seq<Seq<char>> {
    seq![args[0], "--progress"@, "--no-recurse-submodules"@, "--no-auto-maintenance"@] + args.skip(1)
}

pub fn network_args(args: &Vec<String>) -> (r: Vec<String>)
    requires
        args.len() >= 1,
    ensures
        args_view(r@) == spec_network_args(args_view(args@)),
{
    let mut out: Vec<String> = Vec::new();
    out.push(args[0].clone());
    out.push(owned("--progress"));
    out.push(owned("--no-recurse-submodules"));
    out.push(owned("--no-auto-maintenance"));
    let mut i: usize = 1;
    while i < args.len()
        invariant
            1 <= i <= args.len(),
            args_view(out@) == seq![
                args_view(args@)[0],
                "--progress"@,
                "--no-recurse-submodules"@,
                "--no-auto-maintenance"@,
            ] + args_view(args@).subrange(1, i as int),
        decreases args.len() - i,
    {
        let ghost before = out@;
        out.push(args[i].clone());
        assert(args_view(out@) =~= args_view(before).push(args@[i as int]@));
        assert(args_view(args@).subrange(1, i + 1) =~= args_view(args@).subrange(1, i as int).push(
            args@[i as int]@,
        ));
        i = i + 1;
    }
    assert(args_view(args@).subrange(1, args.len() as int) =~= args_view(args@).skip(1));
    out
}

/// A clone without checkout, submodules or templates, of at most `depth` commits.
pub open spec fn spec_clone_args(depth: nat, remote: Seq<char>, dest: Seq<char>) -> Seq<Seq<char>> {
    seq![
        "clone"@,
        "--progress"@,
        "--no-checkout"@,
        "--no-recurse-submodules"@,
        "--template="@,
        "--depth"@,
        decimal_chars(depth),
        "--"@,
        remote,
        dest,
    ]
}

fn decimal_string(n: usize) -> (r: String)
    ensures
        r@ == decimal_chars(n as nat),
{
    let mut v: Vec<char> = Vec::new();
    push_decimal_chars(&mut v, n as u64);
    string_from(&v)
}

pub fn clone_args(depth: usize, remote: &str, dest: &str) -> (r: Vec<String>)
    ensures
        args_view(r@) == spec_clone_args(depth as nat, remote@, dest@),
{
    let mut out: Vec<String> = Vec::new();
    out.push(owned("clone"));
    out.push(owned("--progress"));
    out.push(owned("--no-checkout"));
    out.push(owned("--no-recurse-submodules"));
    out.push(owned("--template="));
    out.push(owned("--depth"));
    out.push(decimal_string(depth));
    out.push(owned("--"));
    out.push(owned(remote));
    out.push(owned(dest));
    assert(args_view(out@) =~= spec_clone_args(depth as nat, remote@, dest@));
    out
}

/// The files a commit changed, against its first parent (or as a root commit),
/// NUL-separated and without rename detection.
pub open spec fn spec_diff_tree_args(parents: Seq<Seq<char>>, sha: Seq<char>) -> Seq<Seq<char>> {
    seq![
        "diff-tree"@,
        "--root"@,
        "--no-commit-id"@,
        "--name-only"@,
        "-r"@,
        "-z"@,
        "--no-renames"@,
    ] + (if parents.len() > 0 {
        seq![parents[0]]
    } else {
        seq![]
    }) + seq![sha, "--"@]
}

pub fn diff_tree_args(parents: &Vec<String>, sha: &str) -> (r: Vec<String>)
    ensures
        args_view(r@) == spec_diff_tree_args(args_view(parents@), sha@),
{
    let mut out: Vec<String> = Vec::new();
    out.push(owned("diff-tree"));
    out.push(owned("--root"));
    out.push(owned("--no-commit-id"));
    out.push(owned("--name-only"));
    out.push(owned("-r"));
    out.push(owned("-z"));
    out.push(owned("--no-renames"));
    if parents.len() > 0 {
        out.push(parents[0].clone());
    }
    out.push(owned(sha));
    out.push(owned("--"));
    assert(args_view(out@) =~= spec_diff_tree_args(args_view(parents@), sha@));
    out
}

/// One file's diff between two commits, with twenty lines of context and without
/// external diff drivers, text conversion, color or rename detection.
pub open spec fn spec_file_diff_args(parent: Seq<char>, sha: Seq<char>, file: Seq<char>) -> Seq<
    Seq<char>,
> {
    seq![
        "diff"@,
        "--no-ext-diff"@,
        "--no-textconv"@,
        "--no-color"@,
        "--no-renames"@,
        "--unified=20"@,
        parent,
        sha,
        "--"@,
        file,
    ]
}

pub fn file_diff_args(parent: &str, sha: &str, file: &str) -> (r: Vec<String>)
    ensures
        args_view(r@) == spec_file_diff_args(parent@, sha@, file@),
{
    let mut out: Vec<String> = Vec::new();
    out.push(owned("diff"));
    out.push(owned("--no-ext-diff"));
    out.push(owned("--no-textconv"));
    out.push(owned("--no-color"));
    out.push(owned("--no-renames"));
    out.push(owned("--unified=20"));
    out.push(owned(parent));
    out.push(owned(sha));
    out.push(owned("--"));
    out.push(owned(file));
    assert(args_view(out@) =~= spec_file_diff_args(parent@, sha@, file@));
    out
}

/// The numeric change statistics of a batch of commits, NUL-separated, each commit
/// introduced by its hash, merges against their first parent.
pub open spec fn spec_numstat_args(batch: Seq<Seq<char>>) -> Seq<Seq<char>> {
    seq![
        "show"@,
        "--format=%H"@,
        "--numstat"@,
        "-z"@,
        "--no-renames"@,
        "--no-ext-diff"@,
        "--no-textconv"@,
        "--diff-merges=first-parent"@,
    ] + batch + seq!["--"@]
}

pub fn numstat_args(batch: &[String]) -> (r: Vec<String>)
    ensures
        args_view(r@) == spec_numstat_args(args_view(batch@)),
{
    let mut out: Vec<String> = Vec::new();
    out.push(owned("show"));
    out.push(owned("--format=%H"));
    out.push(owned("--numstat"));
    out.push(owned("-z"));
    out.push(owned("--no-renames"));
    out.push(owned("--no-ext-diff"));
    out.push(owned("--no-textconv"));
    out.push(owned("--diff-merges=first-parent"));
    let ghost head = args_view(out@);
    assert(head =~= seq![
        "show"@,
        "--format=%H"@,
        "--numstat"@,
        "-z"@,
        "--no-renames"@,
        "--no-ext-diff"@,
        "--no-textconv"@,
        "--diff-merges=first-parent"@,
    ]);
    let mut i: usize = 0;
    while i < batch.len()
        invariant
            i <= batch.len(),
            args_view(out@) == head + args_view(batch@).take(i as int),
        decreases batch.len() - i,
    {
        let ghost before = out@;
        out.push(batch[i].clone());
        assert(args_view(out@) =~= args_view(before).push(batch@[i as int]@));
        assert(args_view(batch@).take(i + 1) =~= args_view(batch@).take(i as int).push(
            batch@[i as int]@,
        ));
        i = i + 1;
    }
    assert(args_view(batch@).take(batch.len() as int) =~= args_view(batch@));
    let ghost before = out@;
    out.push(owned("--"));
    assert(args_view(out@) =~= args_view(before).push("--"@));
    assert(args_view(out@) =~= spec_numstat_args(args_view(batch@)));
    out
}

/// The commits Git lists from `HEAD`: first parents only, or all in topological order.
pub fn traversal(first_parent: bool) -> (r: &'static str)
    ensures
        r@ == if first_parent {
            "--first-parent"@
        } else {
            "--topo-order"@
        },
{
    if first_parent {
        "--first-parent"
    } else {
        "--topo-order"
    }
}

/// `--max-count=` with one commit more than wanted, which tells whether history
/// continues past the `n` wanted.
pub fn max_count_arg(n: usize) -> (r: String)
    requires
        n < usize::MAX,
    ensures
        r@ == "--max-count="@ + decimal_chars(n as nat + 1),
{
    let mut v: Vec<char> = Vec::new();
    append_chars(&mut v, "--max-count=");
    push_decimal_chars(&mut v, (n + 1) as u64);
    string_from(&v)
}

/// How far to deepen a shallow clone when `n` commits are wanted.
pub fn deepen_arg(n: usize) -> (r: String)
    requires
        n + 32 <= usize::MAX,
    ensures
        r@ == decimal_chars(n as nat + 32),
{
    decimal_string(n + 32)
}

/// An inherited variable a Git process must not see: Git's own settings, which could
/// redirect it, and the Jev API key.
pub open spec fn spec_withheld(name: Seq<char>) -> bool {
    is_prefix_of("GIT_"@, name) || name == "TYPESAFE_API_KEY"@
}

pub open spec fn is_prefix_of(p: Seq<char>, s: Seq<char>) -> bool {
    p.len() <= s.len() && s.take(p.len() as int) == p
}

pub fn withheld(name: &str) -> (r: bool)
    ensures
        r == spec_withheld(name@),
{
    proof {
        reveal_strlit("GIT_");
    }
    let c = crate::text::chars_of(name);
    let p = crate::text::chars_of("GIT_");
    let prefixed = c.len() >= 4 && crate::text::matches_at(&c, 0, &p);
    assert(prefixed == is_prefix_of("GIT_"@, name@)) by {
        if c.len() >= 4 {
            assert(c@.subrange(0, 4) =~= c@.take(4));
        }
    }
    prefixed || crate::text::str_eq(name, "TYPESAFE_API_KEY")
}

/// The variables every Git process runs with: the allowed transports, no lazy
/// fetches, no terminal prompts, no large-file downloads, no optional locks.
pub open spec fn spec_environment(network: bool) -> Seq<(Seq<char>, Seq<char>)> {
    seq![
        ("GIT_ALLOW_PROTOCOL"@, if network {
            "https"@
        } else {
            ""@
        }),
        ("GIT_NO_LAZY_FETCH"@, "1"@),
        ("GIT_TERMINAL_PROMPT"@, "0"@),
        ("GIT_LFS_SKIP_SMUDGE"@, "1"@),
        ("GIT_OPTIONAL_LOCKS"@, "0"@),
    ]
}

pub fn environment(network: bool) -> (r: Vec<(String, String)>)
    ensures
        r@.map_values(|e: (String, String)| (e.0@, e.1@)) == spec_environment(network),
{
    let mut out: Vec<(String, String)> = Vec::new();
    out.push((owned("GIT_ALLOW_PROTOCOL"), owned(allowed_protocols(network))));
    out.push((owned("GIT_NO_LAZY_FETCH"), owned("1")));
    out.push((owned("GIT_TERMINAL_PROMPT"), owned("0")));
    out.push((owned("GIT_LFS_SKIP_SMUDGE"), owned("1")));
    out.push((owned("GIT_OPTIONAL_LOCKS"), owned("0")));
    assert(out@.map_values(|e: (String, String)| (e.0@, e.1@)) =~= spec_environment(network));
    out
}

} // verus!
