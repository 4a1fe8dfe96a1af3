//! Bringing a saved clone of a remote repository up to date, one Git command at a
//! time: its origin is checked, its history fetched, and its `HEAD` moved to the
//! fetched upstream without a checkout (the clones have no work tree, and a pull or
//! merge would populate files and run merge machinery).
use crate::export::{first_chars, take_chars};
use crate::remote::origin_is;
use crate::text::{append_chars, chars_of, eq_ignore_ascii_case, spec_trim, string_from, trim};
use crate::remote::opt_view;
use crate::walk::{Action, ActionView, Reply, ReplyView, Step, StepView};
use crate::command::args_view;
use vstd::prelude::*;

verus! {

/// What a refresh waits for.
#[derive(PartialEq, Eq, Structural, Clone, Copy)]
pub enum RefreshPhase {
    /// The clone's configured origin.
    Origin,
    /// The commit `HEAD` names before the fetch.
    Before,
    /// The fetch.
    Fetched,
    /// The commit the upstream branch names after the fetch.
    Latest,
    /// `HEAD` moved to that commit.
    Advanced,
    /// Nothing: the refresh has ended.
    Over,
}

/// A refresh: the repository it must come from, where it stands, the origin the clone
/// names, and `HEAD` before and after the fetch, as Git printed them.
pub struct RefreshView {
    pub remote: Seq<char>,
    pub phase: RefreshPhase,
    pub origin: Seq<char>,
    pub before: Seq<char>,
    pub latest: Seq<char>,
}

pub open spec fn origin_query() -> Seq<Seq<char>> {
    seq!["config"@, "--get"@, "remote.origin.url"@]
}

pub open spec fn head_query() -> Seq<Seq<char>> {
    seq!["rev-parse"@, "--verify"@, "HEAD"@]
}

pub open spec fn refresh_fetch() -> Seq<Seq<char>> {
    seq!["fetch"@, "--no-tags"@, "origin"@]
}

pub open spec fn upstream_query() -> Seq<Seq<char>> {
    seq!["rev-parse"@, "--verify"@, "@{upstream}^{commit}"@]
}

/// Moves `HEAD` from `before` to `latest`, and only if it still names `before`.
pub open spec fn advance_query(before: Seq<char>, latest: Seq<char>) -> Seq<Seq<char>> {
    seq!["update-ref"@, "HEAD"@, spec_trim(latest), spec_trim(before)]
}

/// The clone names the requested repository as its origin (trimmed, ASCII case
/// ignored).
pub open spec fn origin_matches(r: RefreshView) -> bool {
    eq_ignore_ascii_case(spec_trim(r.origin), r.remote)
}

pub open spec fn moved(
    r: RefreshView,
    phase: RefreshPhase,
    origin: Seq<char>,
    before: Seq<char>,
    latest: Seq<char>,
    stage: Option<Seq<char>>,
    action: ActionView,
) -> (RefreshView, StepView) {
    (
        RefreshView { remote: r.remote, phase, origin, before, latest },
        StepView { stage, action },
    )
}

pub open spec fn stopped(r: RefreshView, message: Seq<char>, cause: Option<Seq<char>>) -> (
    RefreshView,
    StepView,
) {
    moved(
        r,
        RefreshPhase::Over,
        r.origin,
        r.before,
        r.latest,
        None,
        ActionView::Fail(message, cause),
    )
}

/// How a refresh starts: by reading the clone's origin.
pub open spec fn spec_refresh_begin(remote: Seq<char>) -> (RefreshView, StepView) {
    (
        RefreshView {
            remote,
            phase: RefreshPhase::Origin,
            origin: seq![],
            before: seq![],
            latest: seq![],
        },
        StepView { stage: None, action: ActionView::Read(origin_query()) },
    )
}

/// How a refresh goes on from what Git said.
pub open spec fn spec_refresh_step(r: RefreshView, reply: ReplyView) -> (RefreshView, StepView) {
    match reply {
        ReplyView::Failed(cause, _) => match r.phase {
            RefreshPhase::Latest => stopped(
                r,
                "Saved repository has no available upstream branch"@,
                Some(cause),
            ),
            RefreshPhase::Advanced => stopped(
                r,
                "Could not advance the saved repository to its fetched upstream"@,
                Some(cause),
            ),
            _ => stopped(r, cause, None),
        },
        ReplyView::Output(out) => match r.phase {
            RefreshPhase::Origin => {
                let checked = RefreshView {
                    remote: r.remote,
                    phase: r.phase,
                    origin: out,
                    before: r.before,
                    latest: r.latest,
                };
                if origin_matches(checked) {
                    moved(
                        r,
                        RefreshPhase::Before,
                        out,
                        r.before,
                        r.latest,
                        Some("Fetching latest commits from origin"@),
                        ActionView::Read(head_query()),
                    )
                } else {
                    stopped(checked, "Existing repository has an unexpected origin"@, None)
                }
            },
            RefreshPhase::Before => moved(
                r,
                RefreshPhase::Fetched,
                r.origin,
                out,
                r.latest,
                None,
                ActionView::Fetch(
                    refresh_fetch(),
                    Some(
                        "Could not refresh the saved repository; scan stopped to avoid stale results"@,
                    ),
                ),
            ),
            RefreshPhase::Fetched => moved(
                r,
                RefreshPhase::Latest,
                r.origin,
                r.before,
                r.latest,
                None,
                ActionView::Try(upstream_query()),
            ),
            RefreshPhase::Latest => if spec_trim(r.before) == spec_trim(out) {
                moved(
                    r,
                    RefreshPhase::Over,
                    r.origin,
                    r.before,
                    out,
                    Some("Repository is up to date"@),
                    ActionView::Finish(seq![]),
                )
            } else {
                moved(
                    r,
                    RefreshPhase::Advanced,
                    r.origin,
                    r.before,
                    out,
                    None,
                    ActionView::Try(advance_query(r.before, out)),
                )
            },
            RefreshPhase::Advanced => moved(
                r,
                RefreshPhase::Over,
                r.origin,
                r.before,
                r.latest,
                Some(
                    "Repository updated · "@ + take_chars(spec_trim(r.before), 7) + " → "@
                        + take_chars(spec_trim(r.latest), 7),
                ),
                ActionView::Finish(seq![]),
            ),
            RefreshPhase::Over => stopped(r, seq![], None),
        },
    }
}

/// The bound a refresh keeps: past its first step, the clone's origin was found to
/// be the requested repository.
pub open spec fn refresh_wf(r: RefreshView) -> bool {
    r.phase != RefreshPhase::Origin && r.phase != RefreshPhase::Over ==> origin_matches(r)
}

/// A saved clone being brought up to date.
pub struct Refresh {
    remote: String,
    phase: RefreshPhase,
    origin: String,
    before: String,
    latest: String,
}

impl View for Refresh {
    type V = RefreshView;

    closed spec fn view(&self) -> RefreshView {
        RefreshView {
            remote: self.remote@,
            phase: self.phase,
            origin: self.origin@,
            before: self.before@,
            latest: self.latest@,
        }
    }
}

fn owned(s: &str) -> (r: String)
    ensures
        r@ == s@,
{
    String::from_str(s)
}

fn push_arg(v: &mut Vec<String>, s: &str)
    ensures
        args_view(final(v)@) == args_view(old(v)@).push(s@),
{
    let ghost before = v@;
    v.push(owned(s));
    assert(args_view(v@) =~= args_view(before).push(s@));
}

fn trimmed(text: &str) -> (r: String)
    ensures
        r@ == spec_trim(text@),
{
    let t = trim(&chars_of(text));
    string_from(&t)
}

impl Refresh {
    /// Starts bringing the saved clone of `remote` up to date.
    pub fn begin(remote: &str) -> (r: (Refresh, Step))
        ensures
            (r.0@, r.1@) == spec_refresh_begin(remote@),
            refresh_wf(r.0@),
    {
        let mut args: Vec<String> = Vec::new();
        push_arg(&mut args, "config");
        push_arg(&mut args, "--get");
        push_arg(&mut args, "remote.origin.url");
        assert(args_view(args@) =~= origin_query());
        let r = Refresh {
            remote: owned(remote),
            phase: RefreshPhase::Origin,
            origin: String::new(),
            before: String::new(),
            latest: String::new(),
        };
        (r, Step { stage: None, action: Action::Read(args) })
    }

    fn stop(&mut self, message: String, cause: Option<String>) -> (r: Step)
        ensures
            (final(self)@, r@) == stopped(old(self)@, message@, opt_view(cause)),
    {
        self.phase = RefreshPhase::Over;
        Step { stage: None, action: Action::Fail(message, cause) }
    }

    fn on_failure(&mut self, cause: String) -> (r: Step)
        ensures
            (final(self)@, r@) == spec_refresh_step(old(self)@, ReplyView::Failed(cause@, false)),
    {
        match self.phase {
            RefreshPhase::Latest => self.stop(
                owned("Saved repository has no available upstream branch"),
                Some(cause),
            ),
            RefreshPhase::Advanced => self.stop(
                owned("Could not advance the saved repository to its fetched upstream"),
                Some(cause),
            ),
            _ => self.stop(cause, None),
        }
    }

    fn on_origin(&mut self, out: String) -> (r: Step)
        requires
            old(self)@.phase == RefreshPhase::Origin,
        ensures
            (final(self)@, r@) == spec_refresh_step(old(self)@, ReplyView::Output(out@)),
    {
        let ok = origin_is(out.as_str(), self.remote.as_str());
        self.origin = out;
        if ok {
            let mut args: Vec<String> = Vec::new();
            push_arg(&mut args, "rev-parse");
            push_arg(&mut args, "--verify");
            push_arg(&mut args, "HEAD");
            assert(args_view(args@) =~= head_query());
            self.phase = RefreshPhase::Before;
            Step { stage: Some(owned("Fetching latest commits from origin")), action: Action::Read(args) }
        } else {
            self.stop(owned("Existing repository has an unexpected origin"), None)
        }
    }

    fn on_before(&mut self, out: String) -> (r: Step)
        requires
            old(self)@.phase == RefreshPhase::Before,
        ensures
            (final(self)@, r@) == spec_refresh_step(old(self)@, ReplyView::Output(out@)),
    {
        self.before = out;
        let mut args: Vec<String> = Vec::new();
        push_arg(&mut args, "fetch");
        push_arg(&mut args, "--no-tags");
        push_arg(&mut args, "origin");
        assert(args_view(args@) =~= refresh_fetch());
        self.phase = RefreshPhase::Fetched;
        let why = owned(
            "Could not refresh the saved repository; scan stopped to avoid stale results",
        );
        Step { stage: None, action: Action::Fetch(args, Some(why)) }
    }

    fn on_fetched(&mut self) -> (r: Step)
        requires
            old(self)@.phase == RefreshPhase::Fetched,
        ensures
            forall|out: Seq<char>| (final(self)@, r@) == #[trigger] spec_refresh_step(old(self)@, ReplyView::Output(out)),
    {
        let mut args: Vec<String> = Vec::new();
        push_arg(&mut args, "rev-parse");
        push_arg(&mut args, "--verify");
        push_arg(&mut args, "@{upstream}^{commit}");
        assert(args_view(args@) =~= upstream_query());
        self.phase = RefreshPhase::Latest;
        Step { stage: None, action: Action::Try(args) }
    }

    fn on_latest(&mut self, out: String) -> (r: Step)
        requires
            old(self)@.phase == RefreshPhase::Latest,
        ensures
            (final(self)@, r@) == spec_refresh_step(old(self)@, ReplyView::Output(out@)),
    {
        let b = trimmed(self.before.as_str());
        let l = trimmed(out.as_str());
        let same = crate::text::str_eq(b.as_str(), l.as_str());
        let ghost latest = out@;
        self.latest = out;
        if same {
            self.phase = RefreshPhase::Over;
            let ids: Vec<String> = Vec::new();
            assert(crate::history::strings_view(ids@) =~= Seq::<Seq<char>>::empty());
            Step { stage: Some(owned("Repository is up to date")), action: Action::Finish(ids) }
        } else {
            let mut args: Vec<String> = Vec::new();
            push_arg(&mut args, "update-ref");
            push_arg(&mut args, "HEAD");
            push_arg(&mut args, l.as_str());
            push_arg(&mut args, b.as_str());
            assert(args_view(args@) =~= advance_query(old(self)@.before, latest));
            self.phase = RefreshPhase::Advanced;
            Step { stage: None, action: Action::Try(args) }
        }
    }

    fn on_advanced(&mut self) -> (r: Step)
        requires
            old(self)@.phase == RefreshPhase::Advanced,
        ensures
            forall|out: Seq<char>| (final(self)@, r@) == #[trigger] spec_refresh_step(old(self)@, ReplyView::Output(out)),
    {
        let b = trimmed(self.before.as_str());
        let l = trimmed(self.latest.as_str());
        let mut text: Vec<char> = Vec::new();
        append_chars(&mut text, "Repository updated · ");
        let b7 = first_chars(b.as_str(), 7);
        let l7 = first_chars(l.as_str(), 7);
        crate::terminal::extend(&mut text, &b7);
        append_chars(&mut text, " → ");
        crate::terminal::extend(&mut text, &l7);
        self.phase = RefreshPhase::Over;
        let ids: Vec<String> = Vec::new();
        assert(crate::history::strings_view(ids@) =~= Seq::<Seq<char>>::empty());
        Step { stage: Some(string_from(&text)), action: Action::Finish(ids) }
    }

    /// Goes on from what Git said about the last action.
    pub fn step(&mut self, reply: Reply) -> (r: Step)
        requires
            old(self)@.phase != RefreshPhase::Over,
            refresh_wf(old(self)@),
        ensures
            (final(self)@, r@) == spec_refresh_step(old(self)@, reply@),
            refresh_wf(final(self)@),
    {
        match reply {
            Reply::Failed(cause, _) => self.on_failure(cause),
            Reply::Output(out) => match self.phase {
                RefreshPhase::Origin => self.on_origin(out),
                RefreshPhase::Before => self.on_before(out),
                RefreshPhase::Fetched => self.on_fetched(),
                RefreshPhase::Latest => self.on_latest(out),
                _ => self.on_advanced(),
            },
        }
    }
}

/// A saved clone is fetched only once its configured origin has been found to be
/// the requested repository, and the refresh keeps that bound at every step.
pub proof fn law_clones_are_fetched_only_from_their_origin(r: RefreshView, reply: ReplyView)
    requires
        refresh_wf(r),
    ensures
        refresh_wf(spec_refresh_step(r, reply).0),
        spec_refresh_step(r, reply).1.action is Fetch ==> origin_matches(r),
        refresh_wf(spec_refresh_begin(r.remote).0),
{
}

} // verus!
