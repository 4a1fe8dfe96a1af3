//! Choosing the commits a scan reads, one decision at a time. A walk says which Git
//! command to run next; its caller runs the command and hands back what Git printed.
//! A source that is a local directory is only ever read: fetching is for the managed
//! clones of remote sources.
use crate::command::{args_view, deepen_arg, max_count_arg, traversal};
use crate::history::{
    acceptable_reference, check_reference, date_range, dated_records, field_count,
    int_error_message, is_full_sha, lists_parent, picked, record_keys, reports_true,
    requested_commit, select_by_date, spec_date, spec_full_sha, spec_lists_parent, start_of,
    strings_view, unresolved, date_error,
};
use crate::model::Options;
use crate::remote::opt_view;
use crate::order::{is_stable_descending, law_stable_order_is_unique};
use crate::text::{
    append_chars, chars_of, decimal_chars, lines_of, push_decimal_chars, spec_fields, spec_lines,
    spec_trim, string_from, trim,
};
use vstd::prelude::*;

verus! {

/// What a walk waits for.
#[derive(PartialEq, Eq, Structural, Clone, Copy)]
pub enum Phase {
    /// The requested reference, first resolved.
    FirstResolution,
    /// The fetch of the requested commit.
    FetchedRequested,
    /// The reference, resolved again after that fetch.
    SecondResolution,
    /// Whether the clone is shallow, the reference being unresolved.
    ShallowForUnresolved,
    /// The fetch of the full history.
    Unshallowed,
    /// The reference, resolved once more after that fetch.
    LastResolution,
    /// Whether the clone is shallow, the commit being resolved.
    ShallowForSelected,
    /// The commit's listing with its parents.
    Boundary,
    /// The commit's raw object.
    RawObject,
    /// The fetch of the commit's parent history.
    FetchedParents,
    /// The commit's listing with its parents, after that fetch.
    Restored,
    /// The listing of the latest commits.
    Listed,
    /// Whether the clone is shallow, more commits being wanted.
    ShallowForCount,
    /// The fetch of deeper history.
    Deepened,
    /// The listing of the latest commits after that fetch.
    Relisted,
    /// Whether the clone is shallow, a date range being asked for.
    ShallowForRange,
    /// The fetch of the full history for the date range.
    FetchedRange,
    /// Whether the clone is still shallow after that fetch.
    RecheckRange,
    /// The listing of commits with their times.
    Timestamps,
    /// Nothing: the walk has ended.
    Over,
}

/// What Git said.
pub enum Reply {
    /// What the command printed (nothing, for a fetch).
    Output(String),
    /// A resolution failed with this error; `cancelled` tells whether the scan was
    /// cancelled by then.
    Failed(String, bool),
}

pub enum ReplyView {
    Output(Seq<char>),
    Failed(Seq<char>, bool),
}

impl View for Reply {
    type V = ReplyView;

    open spec fn view(&self) -> ReplyView {
        match self {
            Reply::Output(s) => ReplyView::Output(s@),
            Reply::Failed(s, c) => ReplyView::Failed(s@, *c),
        }
    }
}

/// What the caller does next, in the repository a walk or a refresh is about.
pub enum Action {
    /// Run this read-only Git command in the repository and reply with its output;
    /// a failure stops the scan with Git's error.
    Read(Vec<String>),
    /// Run this read-only Git command and reply with its output, or with its error.
    Try(Vec<String>),
    /// Fetch from the clone's origin with these arguments and reply with nothing; a
    /// failure stops the scan, explained by the message when there is one.
    Fetch(Vec<String>, Option<String>),
    /// Done: the commits selected, in the order to scan them (none, when a saved
    /// clone was brought up to date).
    Finish(Vec<String>),
    /// Stop the scan with this message, and the Git error behind it when there is one.
    Fail(String, Option<String>),
    /// The count asked for is too large to compute with: stop as on an arithmetic
    /// overflow.
    Overflow,
}

pub enum ActionView {
    Read(Seq<Seq<char>>),
    Try(Seq<Seq<char>>),
    Fetch(Seq<Seq<char>>, Option<Seq<char>>),
    Finish(Seq<Seq<char>>),
    Fail(Seq<char>, Option<Seq<char>>),
    Overflow,
}

impl View for Action {
    type V = ActionView;

    open spec fn view(&self) -> ActionView {
        match self {
            Action::Read(a) => ActionView::Read(args_view(a@)),
            Action::Try(a) => ActionView::Try(args_view(a@)),
            Action::Fetch(a, m) => ActionView::Fetch(args_view(a@), opt_view(*m)),
            Action::Finish(ids) => ActionView::Finish(strings_view(ids@)),
            Action::Fail(m, c) => ActionView::Fail(m@, opt_view(*c)),
            Action::Overflow => ActionView::Overflow,
        }
    }
}

/// A step: a stage of the work to show first, when there is one, then an action.
pub struct Step {
    pub stage: Option<String>,
    pub action: Action,
}

pub struct StepView {
    pub stage: Option<Seq<char>>,
    pub action: ActionView,
}

impl View for Step {
    type V = StepView;

    open spec fn view(&self) -> StepView {
        StepView { stage: opt_view(self.stage), action: self.action@ }
    }
}

/// A walk: the history options, whether the source is remote, where the walk
/// stands, and what it has learnt so far.
pub struct WalkView {
    pub remote: bool,
    pub first_parent: bool,
    pub limit: Option<usize>,
    pub since: Option<Seq<char>>,
    pub until: Option<Seq<char>>,
    pub reference: Seq<char>,
    pub phase: Phase,
    pub ids: Seq<Seq<char>>,
    pub sha: Seq<char>,
    pub cause: Seq<char>,
    pub start: i64,
    pub end: i64,
}

// ---------------------------------------------------------------------------
// The commands and messages of a walk
// ---------------------------------------------------------------------------
pub open spec fn shallow_query() -> Seq<Seq<char>> {
    seq!["rev-parse"@, "--is-shallow-repository"@]
}

pub open spec fn resolve_query(reference: Seq<char>) -> Seq<Seq<char>> {
    seq!["rev-parse"@, "--verify"@, "--end-of-options"@, reference + "^{commit}"@]
}

pub open spec fn order_flag(first_parent: bool) -> Seq<char> {
    if first_parent {
        "--first-parent"@
    } else {
        "--topo-order"@
    }
}

pub open spec fn listing_query(first_parent: bool, n: nat) -> Seq<Seq<char>> {
    seq![
        "rev-list"@,
        order_flag(first_parent),
        "--max-count="@ + decimal_chars(n + 1),
        "HEAD"@,
        "--"@,
    ]
}

pub open spec fn parents_query(sha: Seq<char>) -> Seq<Seq<char>> {
    seq!["rev-list"@, "--parents"@, "-n"@, "1"@, sha, "--"@]
}

pub open spec fn object_query(sha: Seq<char>) -> Seq<Seq<char>> {
    seq!["cat-file"@, "-p"@, sha]
}

pub open spec fn timestamps_query(first_parent: bool) -> Seq<Seq<char>> {
    seq!["rev-list"@, "--timestamp"@, order_flag(first_parent), "HEAD"@, "--"@]
}

/// Fetching one commit by name, with its parent.
pub open spec fn commit_fetch(sha: Seq<char>) -> Seq<Seq<char>> {
    seq!["fetch"@, "--depth=2"@, "--no-tags"@, "origin"@, sha]
}

pub open spec fn history_fetch() -> Seq<Seq<char>> {
    seq!["fetch"@, "--unshallow"@, "--tags"@, "origin"@]
}

pub open spec fn range_fetch() -> Seq<Seq<char>> {
    seq!["fetch"@, "--unshallow"@, "--no-tags"@, "origin"@]
}

pub open spec fn deepen_fetch(n: nat) -> Seq<Seq<char>> {
    seq!["fetch"@, "--deepen"@, decimal_chars(n + 32), "--no-tags"@, "origin"@]
}

pub open spec fn combined_message() -> Seq<char> {
    "--commit cannot be combined with history selection options"@
}

pub open spec fn reference_message() -> Seq<char> {
    "Pass one commit SHA or Git reference to --commit"@
}

pub open spec fn unresolved_message(reference: Seq<char>) -> Seq<char> {
    "Could not resolve '"@ + reference
        + "' to exactly one commit; use a full SHA or an available Git reference"@
}

pub open spec fn local_parent_message() -> Seq<char> {
    "Selected commit's parent is outside the local shallow history; fetch the required history yourself before scanning"@
}

pub open spec fn missing_parent_message() -> Seq<char> {
    "The selected commit's parent history is unavailable"@
}

pub open spec fn local_count_message() -> Seq<char> {
    "Requested history reaches the local shallow boundary; fetch the required history yourself before scanning"@
}

pub open spec fn local_range_message() -> Seq<char> {
    "A complete date range requires history outside the local shallow repository; fetch the required history yourself before scanning"@
}

pub open spec fn incomplete_range_message() -> Seq<char> {
    "The remote has incomplete history; the full date range cannot be determined"@
}

/// How many of the latest commits are wanted: the count asked for, else 250.
pub open spec fn wanted(limit: Option<usize>) -> nat {
    match limit {
        Some(n) => n as nat,
        None => 250,
    }
}

/// Git said yes.
pub open spec fn says_true(output: Seq<char>) -> bool {
    spec_trim(output) == "true"@
}

/// The first `n` items, or all when there are fewer.
pub open spec fn truncated(ids: Seq<Seq<char>>, n: nat) -> Seq<Seq<char>> {
    if n < ids.len() {
        ids.take(n as int)
    } else {
        ids
    }
}

/// The commits of a dated listing, newest first (commits of the same second in
/// listing order), at most `limit` of them.
pub open spec fn by_date(rs: Seq<(int, Seq<char>)>, limit: Option<usize>) -> Seq<Seq<char>> {
    picked(rs, choose|o: Seq<usize>| is_stable_descending(record_keys(rs), o), limit)
}

// ---------------------------------------------------------------------------
// The walk's decisions
// ---------------------------------------------------------------------------
pub open spec fn stepped(w: WalkView, phase: Phase, stage: Option<Seq<char>>, action: ActionView) -> (
    WalkView,
    StepView,
) {
    (
        WalkView {
            remote: w.remote,
            first_parent: w.first_parent,
            limit: w.limit,
            since: w.since,
            until: w.until,
            reference: w.reference,
            phase,
            ids: w.ids,
            sha: w.sha,
            cause: w.cause,
            start: w.start,
            end: w.end,
        },
        StepView { stage, action },
    )
}

pub open spec fn with_sha(w: WalkView, sha: Seq<char>) -> WalkView {
    WalkView {
        remote: w.remote,
        first_parent: w.first_parent,
        limit: w.limit,
        since: w.since,
        until: w.until,
        reference: w.reference,
        phase: w.phase,
        ids: w.ids,
        sha,
        cause: w.cause,
        start: w.start,
        end: w.end,
    }
}

pub open spec fn with_ids(w: WalkView, ids: Seq<Seq<char>>) -> WalkView {
    WalkView {
        remote: w.remote,
        first_parent: w.first_parent,
        limit: w.limit,
        since: w.since,
        until: w.until,
        reference: w.reference,
        phase: w.phase,
        ids,
        sha: w.sha,
        cause: w.cause,
        start: w.start,
        end: w.end,
    }
}

pub open spec fn with_cause(w: WalkView, cause: Seq<char>) -> WalkView {
    WalkView {
        remote: w.remote,
        first_parent: w.first_parent,
        limit: w.limit,
        since: w.since,
        until: w.until,
        reference: w.reference,
        phase: w.phase,
        ids: w.ids,
        sha: w.sha,
        cause,
        start: w.start,
        end: w.end,
    }
}

pub open spec fn with_range(w: WalkView, start: i64, end: i64) -> WalkView {
    WalkView {
        remote: w.remote,
        first_parent: w.first_parent,
        limit: w.limit,
        since: w.since,
        until: w.until,
        reference: w.reference,
        phase: w.phase,
        ids: w.ids,
        sha: w.sha,
        cause: w.cause,
        start,
        end,
    }
}

pub open spec fn failed(w: WalkView, message: Seq<char>, cause: Option<Seq<char>>) -> (
    WalkView,
    StepView,
) {
    stepped(w, Phase::Over, None, ActionView::Fail(message, cause))
}

/// The commit is chosen: show it and finish with it.
pub open spec fn selected(w: WalkView) -> (WalkView, StepView) {
    stepped(
        w,
        Phase::Over,
        Some("Selected commit · "@ + w.sha),
        ActionView::Finish(seq![w.sha]),
    )
}

/// The reference resolved to a commit: next, whether the clone is shallow.
pub open spec fn resolved(w: WalkView, output: Seq<char>) -> (WalkView, StepView) {
    stepped(
        with_sha(w, spec_trim(output)),
        Phase::ShallowForSelected,
        None,
        ActionView::Read(shallow_query()),
    )
}

/// The reference did not resolve, and fetching it by name is no help: a remote
/// source may still hold it in history the clone lacks.
pub open spec fn still_unresolved(w: WalkView, cause: Seq<char>, cancelled: bool) -> (
    WalkView,
    StepView,
) {
    if w.remote && !cancelled {
        stepped(
            with_cause(w, cause),
            Phase::ShallowForUnresolved,
            None,
            ActionView::Read(shallow_query()),
        )
    } else {
        failed(w, unresolved_message(w.reference), Some(cause))
    }
}

/// The latest commits, listed: more are fetched while no more than wanted were
/// listed and the clone is shallow.
pub open spec fn counted(w: WalkView, ids: Seq<Seq<char>>) -> (WalkView, StepView) {
    let n = wanted(w.limit);
    if ids.len() <= n {
        stepped(with_ids(w, ids), Phase::ShallowForCount, None, ActionView::Read(shallow_query()))
    } else {
        stepped(with_ids(w, ids), Phase::Over, None, ActionView::Finish(truncated(ids, n)))
    }
}

/// The commits in the date range: read with their times.
pub open spec fn dated(w: WalkView) -> (WalkView, StepView) {
    let since_ok = match w.since {
        Some(s) => spec_date(s) is Some,
        None => true,
    };
    let until_ok = match w.until {
        Some(u) => spec_date(u) is Some,
        None => true,
    };
    if !since_ok {
        failed(w, date_error(w.since->0), None)
    } else if !until_ok {
        failed(w, date_error(w.until->0), None)
    } else {
        let start: i64 = match w.since {
            Some(s) => start_of(spec_date(s)->0) as i64,
            None => i64::MIN,
        };
        let end: i64 = match w.until {
            Some(u) => (start_of(spec_date(u)->0) + 86400) as i64,
            None => i64::MAX,
        };
        stepped(
            with_range(w, start, end),
            Phase::Timestamps,
            None,
            ActionView::Read(timestamps_query(w.first_parent)),
        )
    }
}

/// The bounds a walk keeps: a single requested commit is never walked with a count,
/// only a remote source's clone is asked whether fetching history would resolve a
/// reference, and a walk deepens history only by a count it can compute with.
pub open spec fn walk_wf(w: WalkView) -> bool {
    &&& single_phase(w.phase) ==> w.limit is None
    &&& w.phase == Phase::ShallowForUnresolved ==> w.remote
    &&& w.phase == Phase::Deepened ==> wanted(w.limit) + 32 <= usize::MAX
}

/// The phases of a walk to one requested commit.
pub open spec fn single_phase(p: Phase) -> bool {
    ||| p == Phase::FirstResolution
    ||| p == Phase::FetchedRequested
    ||| p == Phase::SecondResolution
    ||| p == Phase::ShallowForUnresolved
    ||| p == Phase::Unshallowed
    ||| p == Phase::LastResolution
    ||| p == Phase::ShallowForSelected
    ||| p == Phase::Boundary
    ||| p == Phase::RawObject
    ||| p == Phase::FetchedParents
    ||| p == Phase::Restored
}

/// How a walk starts.
pub open spec fn spec_begin(o: Options, remote: bool) -> (WalkView, StepView) {
    let w = WalkView {
        remote,
        first_parent: o.first_parent,
        limit: o.limit,
        since: opt_view(o.since),
        until: opt_view(o.until),
        reference: match o.commit {
            Some(c) => c@,
            None => seq![],
        },
        phase: Phase::Over,
        ids: seq![],
        sha: seq![],
        cause: seq![],
        start: 0,
        end: 0,
    };
    match o.commit {
        Some(c) => if !(o.limit is None && o.since is None && o.until is None && !o.first_parent) {
            failed(w, combined_message(), None)
        } else if !acceptable_reference(c@) {
            failed(w, reference_message(), None)
        } else {
            stepped(
                w,
                Phase::FirstResolution,
                Some("Resolving commit · "@ + c@),
                ActionView::Try(resolve_query(c@)),
            )
        },
        None => {
            let stage = Some("Reading commit history"@);
            if o.since is Some || o.until is Some {
                stepped(w, Phase::ShallowForRange, stage, ActionView::Read(shallow_query()))
            } else if wanted(o.limit) >= usize::MAX {
                stepped(w, Phase::Over, stage, ActionView::Overflow)
            } else {
                stepped(
                    w,
                    Phase::Listed,
                    stage,
                    ActionView::Read(listing_query(o.first_parent, wanted(o.limit))),
                )
            }
        },
    }
}

/// How a walk goes on from what Git said. Where an output is expected, a failure
/// stops the walk with it.
pub open spec fn spec_step(w: WalkView, reply: ReplyView) -> (WalkView, StepView) {
    match reply {
        ReplyView::Failed(cause, cancelled) => match w.phase {
            Phase::FirstResolution => if w.remote && spec_full_sha(w.reference) && !cancelled {
                stepped(
                    w,
                    Phase::FetchedRequested,
                    Some("Fetching requested commit from origin"@),
                    ActionView::Fetch(
                        commit_fetch(w.reference),
                        Some("Could not fetch the requested commit from origin"@),
                    ),
                )
            } else {
                still_unresolved(w, cause, cancelled)
            },
            Phase::SecondResolution => still_unresolved(w, cause, cancelled),
            Phase::LastResolution => failed(w, unresolved_message(w.reference), Some(cause)),
            _ => failed(w, cause, None),
        },
        ReplyView::Output(out) => match w.phase {
            Phase::FirstResolution => resolved(w, out),
            Phase::FetchedRequested => stepped(
                w,
                Phase::SecondResolution,
                None,
                ActionView::Try(resolve_query(w.reference)),
            ),
            Phase::SecondResolution => resolved(w, out),
            Phase::ShallowForUnresolved => if says_true(out) {
                stepped(
                    w,
                    Phase::Unshallowed,
                    Some("Fetching full history to resolve the requested commit"@),
                    ActionView::Fetch(
                        history_fetch(),
                        Some("Could not fetch history for the requested commit"@),
                    ),
                )
            } else {
                failed(w, unresolved_message(w.reference), Some(w.cause))
            },
            Phase::Unshallowed => stepped(
                w,
                Phase::LastResolution,
                None,
                ActionView::Try(resolve_query(w.reference)),
            ),
            Phase::LastResolution => resolved(w, out),
            Phase::ShallowForSelected => if says_true(out) {
                stepped(w, Phase::Boundary, None, ActionView::Read(parents_query(w.sha)))
            } else {
                selected(w)
            },
            Phase::Boundary => if spec_fields(out).len() == 1 {
                stepped(w, Phase::RawObject, None, ActionView::Read(object_query(w.sha)))
            } else {
                selected(w)
            },
            Phase::RawObject => if spec_lists_parent(out) {
                if !w.remote {
                    failed(w, local_parent_message(), None)
                } else {
                    stepped(
                        w,
                        Phase::FetchedParents,
                        Some("Fetching parent history for the selected diff"@),
                        ActionView::Fetch(
                            commit_fetch(w.sha),
                            Some("Could not fetch the selected commit's parent history"@),
                        ),
                    )
                }
            } else {
                selected(w)
            },
            Phase::FetchedParents => stepped(
                w,
                Phase::Restored,
                None,
                ActionView::Read(parents_query(w.sha)),
            ),
            Phase::Restored => if spec_fields(out).len() > 1 {
                selected(w)
            } else {
                failed(w, missing_parent_message(), None)
            },
            Phase::Listed => counted(w, spec_lines(out)),
            Phase::ShallowForCount => if says_true(out) {
                let stage = Some(
                    "Fetching more history · "@ + decimal_chars(w.ids.len()) + " commits available"@,
                );
                if !w.remote {
                    failed(w, local_count_message(), None)
                } else if wanted(w.limit) + 32 > usize::MAX {
                    stepped(w, Phase::Over, stage, ActionView::Overflow)
                } else {
                    stepped(
                        w,
                        Phase::Deepened,
                        stage,
                        ActionView::Fetch(deepen_fetch(wanted(w.limit)), None),
                    )
                }
            } else {
                stepped(w, Phase::Over, None, ActionView::Finish(truncated(w.ids, wanted(w.limit))))
            },
            Phase::Deepened => stepped(
                w,
                Phase::Relisted,
                None,
                ActionView::Read(listing_query(w.first_parent, wanted(w.limit))),
            ),
            Phase::Relisted => {
                let more = spec_lines(out);
                if more.len() == w.ids.len() {
                    stepped(
                        with_ids(w, more),
                        Phase::Over,
                        None,
                        ActionView::Finish(truncated(more, wanted(w.limit))),
                    )
                } else {
                    counted(w, more)
                }
            },
            Phase::ShallowForRange => if says_true(out) {
                if !w.remote {
                    failed(w, local_range_message(), None)
                } else {
                    stepped(
                        w,
                        Phase::FetchedRange,
                        Some("Fetching full history for the date range"@),
                        ActionView::Fetch(range_fetch(), None),
                    )
                }
            } else {
                dated(w)
            },
            Phase::FetchedRange => stepped(
                w,
                Phase::RecheckRange,
                None,
                ActionView::Read(shallow_query()),
            ),
            Phase::RecheckRange => if says_true(out) {
                failed(w, incomplete_range_message(), None)
            } else {
                dated(w)
            },
            Phase::Timestamps => match dated_records(
                spec_lines(out),
                w.start as int,
                w.end as int,
            ) {
                Ok(rs) => stepped(w, Phase::Over, None, ActionView::Finish(by_date(rs, w.limit))),
                Err(e) => failed(w, int_error_message(e), None),
            },
            Phase::Over => failed(w, seq![], None),
        },
    }
}


// ---------------------------------------------------------------------------
// The walk
// ---------------------------------------------------------------------------
/// A walk over the history of one repository, as the scan's options ask for it.
pub struct Walk {
    remote: bool,
    first_parent: bool,
    limit: Option<usize>,
    since: Option<String>,
    until: Option<String>,
    reference: String,
    phase: Phase,
    ids: Vec<String>,
    sha: String,
    cause: String,
    start: i64,
    end: i64,
}

impl View for Walk {
    type V = WalkView;

    closed spec fn view(&self) -> WalkView {
        WalkView {
            remote: self.remote,
            first_parent: self.first_parent,
            limit: self.limit,
            since: opt_view(self.since),
            until: opt_view(self.until),
            reference: self.reference@,
            phase: self.phase,
            ids: strings_view(self.ids@),
            sha: self.sha@,
            cause: self.cause@,
            start: self.start,
            end: self.end,
        }
    }
}

fn owned(s: &str) -> (r: String)
    ensures
        r@ == s@,
{
    String::from_str(s)
}

fn push_arg(v: &mut Vec<String>, s: &str)
    ensures
        args_view(final(v)@) == args_view(old(v)@).push(s@),
{
    let ghost before = v@;
    v.push(owned(s));
    assert(args_view(v@) =~= args_view(before).push(s@));
}

fn copy_string(s: &String) -> (r: String)
    ensures
        r@ == s@,
{
    owned(s.as_str())
}

fn copy_option(o: &Option<String>) -> (r: Option<String>)
    ensures
        opt_view(r) == opt_view(*o),
{
    match o {
        Some(s) => Some(copy_string(s)),
        None => None,
    }
}

fn shallow_args() -> (r: Vec<String>)
    ensures
        args_view(r@) == shallow_query(),
{
    let mut v: Vec<String> = Vec::new();
    push_arg(&mut v, "rev-parse");
    push_arg(&mut v, "--is-shallow-repository");
    v
}

fn resolve_args(reference: &str) -> (r: Vec<String>)
    ensures
        args_view(r@) == resolve_query(reference@),
{
    let mut v: Vec<String> = Vec::new();
    push_arg(&mut v, "rev-parse");
    push_arg(&mut v, "--verify");
    push_arg(&mut v, "--end-of-options");
    let mut peeled: Vec<char> = chars_of(reference);
    append_chars(&mut peeled, "^{commit}");
    let p = string_from(&peeled);
    push_arg(&mut v, p.as_str());
    v
}

fn listing_args(first_parent: bool, n: usize) -> (r: Vec<String>)
    requires
        n < usize::MAX,
    ensures
        args_view(r@) == listing_query(first_parent, n as nat),
{
    let mut v: Vec<String> = Vec::new();
    push_arg(&mut v, "rev-list");
    push_arg(&mut v, traversal(first_parent));
    let c = max_count_arg(n);
    push_arg(&mut v, c.as_str());
    push_arg(&mut v, "HEAD");
    push_arg(&mut v, "--");
    v
}

fn parents_args(sha: &str) -> (r: Vec<String>)
    ensures
        args_view(r@) == parents_query(sha@),
{
    let mut v: Vec<String> = Vec::new();
    push_arg(&mut v, "rev-list");
    push_arg(&mut v, "--parents");
    push_arg(&mut v, "-n");
    push_arg(&mut v, "1");
    push_arg(&mut v, sha);
    push_arg(&mut v, "--");
    v
}

fn object_args(sha: &str) -> (r: Vec<String>)
    ensures
        args_view(r@) == object_query(sha@),
{
    let mut v: Vec<String> = Vec::new();
    push_arg(&mut v, "cat-file");
    push_arg(&mut v, "-p");
    push_arg(&mut v, sha);
    v
}

fn timestamps_args(first_parent: bool) -> (r: Vec<String>)
    ensures
        args_view(r@) == timestamps_query(first_parent),
{
    let mut v: Vec<String> = Vec::new();
    push_arg(&mut v, "rev-list");
    push_arg(&mut v, "--timestamp");
    push_arg(&mut v, traversal(first_parent));
    push_arg(&mut v, "HEAD");
    push_arg(&mut v, "--");
    v
}

fn commit_fetch_args(sha: &str) -> (r: Vec<String>)
    ensures
        args_view(r@) == commit_fetch(sha@),
{
    let mut v: Vec<String> = Vec::new();
    push_arg(&mut v, "fetch");
    push_arg(&mut v, "--depth=2");
    push_arg(&mut v, "--no-tags");
    push_arg(&mut v, "origin");
    push_arg(&mut v, sha);
    v
}

fn unshallow_args(tags: bool) -> (r: Vec<String>)
    ensures
        args_view(r@) == if tags {
            history_fetch()
        } else {
            range_fetch()
        },
{
    let mut v: Vec<String> = Vec::new();
    push_arg(&mut v, "fetch");
    push_arg(&mut v, "--unshallow");
    push_arg(&mut v, if tags {
        "--tags"
    } else {
        "--no-tags"
    });
    push_arg(&mut v, "origin");
    v
}

fn deepen_args(n: usize) -> (r: Vec<String>)
    requires
        n + 32 <= usize::MAX,
    ensures
        args_view(r@) == deepen_fetch(n as nat),
{
    let mut v: Vec<String> = Vec::new();
    push_arg(&mut v, "fetch");
    push_arg(&mut v, "--deepen");
    let d = deepen_arg(n);
    push_arg(&mut v, d.as_str());
    push_arg(&mut v, "--no-tags");
    push_arg(&mut v, "origin");
    v
}

fn stage(parts: &str, more: &str) -> (r: Option<String>)
    ensures
        r matches Some(s) && s@ == parts@ + more@,
{
    let mut v: Vec<char> = chars_of(parts);
    append_chars(&mut v, more);
    Some(string_from(&v))
}

fn some_text(s: &str) -> (r: Option<String>)
    ensures
        opt_view(r) == Some(s@),
{
    Some(owned(s))
}

fn lines_owned(text: &str) -> (r: Vec<String>)
    ensures
        strings_view(r@) == spec_lines(text@),
{
    let ls = lines_of(&chars_of(text));
    let mut out: Vec<String> = Vec::new();
    let mut i: usize = 0;
    while i < ls.len()
        invariant
            i <= ls.len(),
            ls@.map_values(|l: Vec<char>| l@) == spec_lines(text@),
            strings_view(out@) == spec_lines(text@).take(i as int),
        decreases ls.len() - i,
    {
        let ghost before = strings_view(out@);
        let line = string_from(&ls[i]);
        assert(line@ == spec_lines(text@)[i as int]);
        out.push(line);
        assert(strings_view(out@) =~= before.push(line@));
        assert(strings_view(out@) =~= spec_lines(text@).take(i + 1));
        i = i + 1;
    }
    assert(spec_lines(text@).take(ls.len() as int) =~= spec_lines(text@));
    out
}

fn first_strings(ids: &Vec<String>, n: usize) -> (r: Vec<String>)
    ensures
        strings_view(r@) == truncated(strings_view(ids@), n as nat),
{
    let mut out: Vec<String> = Vec::new();
    let mut i: usize = 0;
    while i < ids.len() && i < n
        invariant
            i <= ids.len(),
            i <= n,
            strings_view(out@) == strings_view(ids@).take(i as int),
        decreases ids.len() - i,
    {
        let ghost before = strings_view(out@);
        let s = copy_string(&ids[i]);
        out.push(s);
        assert(strings_view(out@) =~= before.push(ids@[i as int]@));
        assert(strings_view(out@) =~= strings_view(ids@).take(i + 1));
        i = i + 1;
    }
    assert(strings_view(ids@).take(ids.len() as int) =~= strings_view(ids@));
    out
}

fn trimmed(text: &str) -> (r: String)
    ensures
        r@ == spec_trim(text@),
{
    let t = trim(&chars_of(text));
    string_from(&t)
}

impl Walk {
    fn go(&mut self, phase: Phase, stage: Option<String>, action: Action) -> (r: Step)
        ensures
            (final(self)@, r@) == stepped(old(self)@, phase, opt_view(stage), action@),
    {
        self.phase = phase;
        Step { stage, action }
    }

    fn fail(&mut self, message: String, cause: Option<String>) -> (r: Step)
        ensures
            (final(self)@, r@) == failed(old(self)@, message@, opt_view(cause)),
    {
        self.go(Phase::Over, None, Action::Fail(message, cause))
    }

    fn fail_with(&mut self, message: &str) -> (r: Step)
        ensures
            (final(self)@, r@) == failed(old(self)@, message@, None),
    {
        self.fail(owned(message), None)
    }

    fn select(&mut self) -> (r: Step)
        ensures
            (final(self)@, r@) == selected(old(self)@),
    {
        let st = stage("Selected commit · ", self.sha.as_str());
        let mut ids: Vec<String> = Vec::new();
        ids.push(copy_string(&self.sha));
        assert(strings_view(ids@) =~= seq![self.sha@]);
        self.go(Phase::Over, st, Action::Finish(ids))
    }

    fn resolve_to(&mut self, out: &str) -> (r: Step)
        ensures
            (final(self)@, r@) == resolved(old(self)@, out@),
    {
        self.sha = trimmed(out);
        self.go(Phase::ShallowForSelected, None, Action::Read(shallow_args()))
    }

    fn unresolved_after(&mut self, cause: String, cancelled: bool) -> (r: Step)
        ensures
            (final(self)@, r@) == still_unresolved(old(self)@, cause@, cancelled),
    {
        if self.remote && !cancelled {
            self.cause = cause;
            self.go(Phase::ShallowForUnresolved, None, Action::Read(shallow_args()))
        } else {
            let m = unresolved(self.reference.as_str());
            self.fail(m, Some(cause))
        }
    }

    fn count(&mut self, ids: Vec<String>) -> (r: Step)
        ensures
            (final(self)@, r@) == counted(old(self)@, strings_view(ids@)),
    {
        let n: usize = crate::history::history_limit(self.limit);
        if ids.len() <= n {
            self.ids = ids;
            self.go(Phase::ShallowForCount, None, Action::Read(shallow_args()))
        } else {
            let first = first_strings(&ids, n);
            self.ids = ids;
            self.go(Phase::Over, None, Action::Finish(first))
        }
    }

    fn by_dates(&mut self) -> (r: Step)
        ensures
            (final(self)@, r@) == dated(old(self)@),
    {
        match date_range(&self.since, &self.until) {
            Err(m) => {
                self.fail(m, None)
            },
            Ok((start, end)) => {
                self.start = start;
                self.end = end;
                let args = timestamps_args(self.first_parent);
                self.go(Phase::Timestamps, None, Action::Read(args))
            },
        }
    }

    /// Starts a walk over the history the options ask for; `remote` tells whether the
    /// source is a remote repository rather than a local directory.
    pub fn begin(o: &Options, remote: bool) -> (r: (Walk, Step))
        ensures
            (r.0@, r.1@) == spec_begin(*o, remote),
            walk_wf(r.0@),
    {
        let reference = match &o.commit {
            Some(c) => copy_string(c),
            None => String::new(),
        };
        let mut w = Walk {
            remote,
            first_parent: o.first_parent,
            limit: o.limit,
            since: copy_option(&o.since),
            until: copy_option(&o.until),
            reference,
            phase: Phase::Over,
            ids: Vec::new(),
            sha: String::new(),
            cause: String::new(),
            start: 0,
            end: 0,
        };
        assert(strings_view(w.ids@) =~= Seq::<Seq<char>>::empty());
        match requested_commit(o) {
            Err(m) => {
                let s = w.fail(m, None);
                (w, s)
            },
            Ok(Some(c)) => match check_reference(c.as_str()) {
                Err(m) => {
                    let s = w.fail(m, None);
                    (w, s)
                },
                Ok(()) => {
                    let st = stage("Resolving commit · ", c.as_str());
                    let s = w.go(Phase::FirstResolution, st, Action::Try(resolve_args(c.as_str())));
                    (w, s)
                },
            },
            Ok(None) => {
                let st = some_text("Reading commit history");
                if o.since.is_some() || o.until.is_some() {
                    let s = w.go(Phase::ShallowForRange, st, Action::Read(shallow_args()));
                    (w, s)
                } else {
                    let n: usize = crate::history::history_limit(o.limit);
                    if n == usize::MAX {
                        let s = w.go(Phase::Over, st, Action::Overflow);
                        (w, s)
                    } else {
                        let args = listing_args(o.first_parent, n);
                        let s = w.go(Phase::Listed, st, Action::Read(args));
                        (w, s)
                    }
                }
            },
        }
    }

    fn on_failure(&mut self, cause: String, cancelled: bool) -> (r: Step)
        requires
            old(self)@.phase != Phase::Over,
        ensures
            (final(self)@, r@) == spec_step(old(self)@, ReplyView::Failed(cause@, cancelled)),
    {
        match self.phase {
            Phase::FirstResolution => {
                if self.remote && is_full_sha(self.reference.as_str()) && !cancelled {
                    let args = commit_fetch_args(self.reference.as_str());
                    let why = some_text("Could not fetch the requested commit from origin");
                    let st = some_text("Fetching requested commit from origin");
                    self.go(Phase::FetchedRequested, st, Action::Fetch(args, why))
                } else {
                    self.unresolved_after(cause, cancelled)
                }
            },
            Phase::SecondResolution => self.unresolved_after(cause, cancelled),
            Phase::LastResolution => {
                let m = unresolved(self.reference.as_str());
                self.fail(m, Some(cause))
            },
            _ => self.fail(cause, None),
        }
    }

    fn on_commit_output(&mut self, out: &str) -> (r: Step)
        requires
            old(self)@.phase == Phase::FirstResolution || old(self)@.phase
                == Phase::FetchedRequested || old(self)@.phase == Phase::SecondResolution
                || old(self)@.phase == Phase::ShallowForUnresolved || old(self)@.phase
                == Phase::Unshallowed || old(self)@.phase == Phase::LastResolution,
        ensures
            (final(self)@, r@) == spec_step(old(self)@, ReplyView::Output(out@)),
    {
        match self.phase {
            Phase::FetchedRequested => {
                let args = resolve_args(self.reference.as_str());
                self.go(Phase::SecondResolution, None, Action::Try(args))
            },
            Phase::ShallowForUnresolved => {
                if reports_true(out) {
                    let why = some_text("Could not fetch history for the requested commit");
                    let st = some_text("Fetching full history to resolve the requested commit");
                    self.go(Phase::Unshallowed, st, Action::Fetch(unshallow_args(true), why))
                } else {
                    let m = unresolved(self.reference.as_str());
                    let c = copy_string(&self.cause);
                    self.fail(m, Some(c))
                }
            },
            Phase::Unshallowed => {
                let args = resolve_args(self.reference.as_str());
                self.go(Phase::LastResolution, None, Action::Try(args))
            },
            _ => self.resolve_to(out),
        }
    }

    fn on_selected_output(&mut self, out: &str) -> (r: Step)
        requires
            old(self)@.phase == Phase::ShallowForSelected || old(self)@.phase == Phase::Boundary
                || old(self)@.phase == Phase::RawObject || old(self)@.phase
                == Phase::FetchedParents || old(self)@.phase == Phase::Restored,
        ensures
            (final(self)@, r@) == spec_step(old(self)@, ReplyView::Output(out@)),
    {
        match self.phase {
            Phase::ShallowForSelected => {
                if reports_true(out) {
                    let args = parents_args(self.sha.as_str());
                    self.go(Phase::Boundary, None, Action::Read(args))
                } else {
                    self.select()
                }
            },
            Phase::Boundary => {
                if field_count(out) == 1 {
                    let args = object_args(self.sha.as_str());
                    self.go(Phase::RawObject, None, Action::Read(args))
                } else {
                    self.select()
                }
            },
            Phase::RawObject => {
                if lists_parent(out) {
                    if !self.remote {
                        self.fail_with(
                            "Selected commit's parent is outside the local shallow history; fetch the required history yourself before scanning",
                        )
                    } else {
                        let args = commit_fetch_args(self.sha.as_str());
                        let why = some_text(
                            "Could not fetch the selected commit's parent history",
                        );
                        let st = some_text("Fetching parent history for the selected diff");
                        self.go(Phase::FetchedParents, st, Action::Fetch(args, why))
                    }
                } else {
                    self.select()
                }
            },
            Phase::FetchedParents => {
                let args = parents_args(self.sha.as_str());
                self.go(Phase::Restored, None, Action::Read(args))
            },
            _ => {
                if field_count(out) > 1 {
                    self.select()
                } else {
                    self.fail_with("The selected commit's parent history is unavailable")
                }
            },
        }
    }

    fn on_count_output(&mut self, out: &str) -> (r: Step)
        requires
            walk_wf(old(self)@),
            old(self)@.phase == Phase::Listed || old(self)@.phase == Phase::ShallowForCount
                || old(self)@.phase == Phase::Deepened || old(self)@.phase == Phase::Relisted,
        ensures
            (final(self)@, r@) == spec_step(old(self)@, ReplyView::Output(out@)),
    {
        let n: usize = crate::history::history_limit(self.limit);
        match self.phase {
            Phase::Listed => self.count(lines_owned(out)),
            Phase::ShallowForCount => {
                if reports_true(out) {
                    let mut text: Vec<char> = Vec::new();
                    append_chars(&mut text, "Fetching more history · ");
                    push_decimal_chars(&mut text, self.ids.len() as u64);
                    append_chars(&mut text, " commits available");
                    let st = Some(string_from(&text));
                    if !self.remote {
                        self.fail_with(
                            "Requested history reaches the local shallow boundary; fetch the required history yourself before scanning",
                        )
                    } else if n > usize::MAX - 32 {
                        self.go(Phase::Over, st, Action::Overflow)
                    } else {
                        self.go(Phase::Deepened, st, Action::Fetch(deepen_args(n), None))
                    }
                } else {
                    let first = first_strings(&self.ids, n);
                    self.go(Phase::Over, None, Action::Finish(first))
                }
            },
            Phase::Deepened => {
                let args = listing_args(self.first_parent, n);
                self.go(Phase::Relisted, None, Action::Read(args))
            },
            _ => {
                let more = lines_owned(out);
                if more.len() == self.ids.len() {
                    let first = first_strings(&more, n);
                    self.ids = more;
                    self.go(Phase::Over, None, Action::Finish(first))
                } else {
                    self.count(more)
                }
            },
        }
    }

    fn on_range_output(&mut self, out: &str) -> (r: Step)
        requires
            old(self)@.phase == Phase::ShallowForRange || old(self)@.phase == Phase::FetchedRange
                || old(self)@.phase == Phase::RecheckRange || old(self)@.phase
                == Phase::Timestamps,
        ensures
            (final(self)@, r@) == spec_step(old(self)@, ReplyView::Output(out@)),
    {
        match self.phase {
            Phase::ShallowForRange => {
                if reports_true(out) {
                    if !self.remote {
                        self.fail_with(
                            "A complete date range requires history outside the local shallow repository; fetch the required history yourself before scanning",
                        )
                    } else {
                        let st = some_text("Fetching full history for the date range");
                        self.go(Phase::FetchedRange, st, Action::Fetch(unshallow_args(false), None))
                    }
                } else {
                    self.by_dates()
                }
            },
            Phase::FetchedRange => self.go(Phase::RecheckRange, None, Action::Read(shallow_args())),
            Phase::RecheckRange => {
                if reports_true(out) {
                    self.fail_with(
                        "The remote has incomplete history; the full date range cannot be determined",
                    )
                } else {
                    self.by_dates()
                }
            },
            _ => {
                let ghost rs_or = dated_records(spec_lines(out@), self.start as int, self.end as int);
                match select_by_date(out, self.start, self.end, self.limit) {
                    Ok(ids) => {
                        proof {
                            let rs = rs_or->Ok_0;
                            let o1 = choose|o: Seq<usize>|
                                is_stable_descending(record_keys(rs), o) && strings_view(ids@)
                                    == #[trigger] picked(rs, o, self.limit);
                            let o2 = choose|o: Seq<usize>| is_stable_descending(record_keys(rs), o);
                            law_stable_order_is_unique(record_keys(rs), o1, o2);
                        }
                        self.go(Phase::Over, None, Action::Finish(ids))
                    },
                    Err(m) => self.fail(m, None),
                }
            },
        }
    }

    /// Goes on from what Git said about the last action.
    pub fn step(&mut self, reply: Reply) -> (r: Step)
        requires
            old(self)@.phase != Phase::Over,
            walk_wf(old(self)@),
        ensures
            (final(self)@, r@) == spec_step(old(self)@, reply@),
            walk_wf(final(self)@),
    {
        match reply {
            Reply::Failed(cause, cancelled) => self.on_failure(cause, cancelled),
            Reply::Output(out) => match self.phase {
                Phase::FirstResolution | Phase::FetchedRequested | Phase::SecondResolution
                | Phase::ShallowForUnresolved | Phase::Unshallowed | Phase::LastResolution => {
                    self.on_commit_output(out.as_str())
                },
                Phase::ShallowForSelected | Phase::Boundary | Phase::RawObject
                | Phase::FetchedParents | Phase::Restored => self.on_selected_output(out.as_str()),
                Phase::Listed | Phase::ShallowForCount | Phase::Deepened | Phase::Relisted => {
                    self.on_count_output(out.as_str())
                },
                _ => self.on_range_output(out.as_str()),
            },
        }
    }
}

// ---------------------------------------------------------------------------
// Laws
// ---------------------------------------------------------------------------
/// A walk starts within its bounds and every step keeps it there, so the laws below
/// hold at every step of every walk.
pub proof fn law_walks_keep_their_bounds(o: Options, remote: bool, w: WalkView, reply: ReplyView)
    requires
        walk_wf(w),
    ensures
        walk_wf(spec_begin(o, remote).0),
        walk_wf(spec_step(w, reply).0),
{
}

/// A walk over a local directory only reads: it starts without fetching, no step of
/// it fetches, and it stays a walk over a local directory.
pub proof fn law_local_walks_never_fetch(o: Options, w: WalkView, reply: ReplyView)
    requires
        walk_wf(w),
        !w.remote,
    ensures
        !spec_begin(o, false).0.remote,
        !(spec_begin(o, false).1.action is Fetch),
        !spec_step(w, reply).0.remote,
        !(spec_step(w, reply).1.action is Fetch),
{
}

/// The fetches a walk may ask for: the requested commit by its full object ID, the
/// commit Git resolved, the full history, or a deeper history by the count wanted.
/// A reference as the user wrote it never reaches a fetch otherwise.
pub open spec fn fetch_allowed(w: WalkView, args: Seq<Seq<char>>) -> bool {
    ||| (args == commit_fetch(w.reference) && spec_full_sha(w.reference))
    ||| args == commit_fetch(w.sha)
    ||| args == history_fetch()
    ||| args == range_fetch()
    ||| args == deepen_fetch(wanted(w.limit))
}

/// Every fetch a walk asks for is one of the allowed fetches.
pub proof fn law_fetches_name_only_object_ids(o: Options, remote: bool, w: WalkView, reply: ReplyView)
    ensures
        !(spec_begin(o, remote).1.action is Fetch),
        spec_step(w, reply).1.action matches ActionView::Fetch(args, _) ==> fetch_allowed(w, args),
{
}

/// The phases of a walk over the latest commits.
pub open spec fn count_phase(p: Phase) -> bool {
    ||| p == Phase::Listed
    ||| p == Phase::ShallowForCount
    ||| p == Phase::Deepened
    ||| p == Phase::Relisted
}

/// A walk ends with no more commits than asked for: one for a requested commit, at
/// most the count (250 without one) for the latest commits, and at most the count
/// for a date range that has one.
pub proof fn law_walks_finish_within_the_limit(w: WalkView, reply: ReplyView)
    requires
        walk_wf(w),
    ensures
        spec_step(w, reply).1.action matches ActionView::Finish(ids) ==> {
            &&& (w.limit matches Some(n) ==> ids.len() <= n)
            &&& (single_phase(w.phase) ==> ids.len() == 1)
            &&& (count_phase(w.phase) ==> ids.len() <= wanted(w.limit))
        },
{
}

} // verus!
