//! Where scans are saved: one JSON file per scan under `scans/`, and a directory
//! of per-commit results beside it. Identifiers are checked before they name a file.
use crate::model::{Options, Progress, Scan, Summary, is_initial};
use crate::order::{is_stable_descending_text, stable_descending_text, text_ranked_before};
use crate::text::{append_chars, chars_of, str_eq, string_from};
use vstd::prelude::*;

verus! {

pub open spec fn id_char(c: char) -> bool {
    ('0' <= c <= '9') || ('a' <= c <= 'f') || ('A' <= c <= 'F') || c == '-'
}

/// A saved result identifier: non-empty, only hexadecimal digits and hyphens, so it
/// can name a file without leaving the scans directory.
pub open spec fn spec_valid(id: Seq<char>) -> bool {
    id.len() > 0 && forall|i: int| 0 <= i < id.len() ==> id_char(#[trigger] id[i])
}

pub fn valid(id: &str) -> (r: Result<&str, String>)
    ensures
        match r {
            Ok(v) => spec_valid(id@) && v@ == id@,
            Err(m) => !spec_valid(id@) && m@ == "Invalid saved result identifier"@,
        },
{
    let c = chars_of(id);
    let mut ok = c.len() > 0;
    let mut i: usize = 0;
    while ok && i < c.len()
        invariant
            i <= c.len(),
            c@ == id@,
            ok ==> c.len() > 0,
            ok ==> forall|j: int| 0 <= j < i ==> id_char(#[trigger] c@[j]),
            !ok ==> !spec_valid(id@),
        decreases c.len() - i,
    {
        let ch = c[i];
        if !(('0' <= ch && ch <= '9') || ('a' <= ch && ch <= 'f') || ('A' <= ch && ch <= 'F') || ch
            == '-') {
            ok = false;
        }
        i = i + 1;
    }
    if ok {
        Ok(id)
    } else {
        Err(String::from_str("Invalid saved result identifier"))
    }
}

/// `base` with the relative path `part` appended, a `/` between them unless `base`
/// is empty or already ends in one.
pub open spec fn join_path(base: Seq<char>, part: Seq<char>) -> Seq<char> {
    if base.len() == 0 {
        part
    } else if base.last() == '/' {
        base + part
    } else {
        base + seq!['/'] + part
    }
}

fn push_path(base: &mut Vec<char>, part: &str)
    ensures
        final(base)@ == join_path(old(base)@, part@),
{
    if base.len() > 0 && base[base.len() - 1] != '/' {
        base.push('/');
    }
    append_chars(base, part);
}

/// The data directory that holds the saved scans.
pub struct Store {
    pub root: String,
}

pub open spec fn scans_dir(root: Seq<char>) -> Seq<char> {
    join_path(root, "scans"@)
}

impl Store {
    /// A store at `root`; its `scans` directory is expected to exist.
    pub fn new(root: String) -> (r: Store)
        ensures
            r.root@ == root@,
    {
        Store { root }
    }

    /// The directory of saved scans.
    pub fn scans(&self) -> (r: String)
        ensures
            r@ == scans_dir(self.root@),
    {
        let mut p = chars_of(self.root.as_str());
        push_path(&mut p, "scans");
        string_from(&p)
    }

    /// The file of the scan `id`; an identifier that could leave the directory is
    /// refused.
    pub fn scan_file(&self, id: &str) -> (r: Result<String, String>)
        ensures
            match r {
                Ok(p) => spec_valid(id@) && p@ == join_path(scans_dir(self.root@), id@ + ".json"@),
                Err(m) => !spec_valid(id@) && m@ == "Invalid saved result identifier"@,
            },
    {
        let id = valid(id)?;
        let mut p = chars_of(self.root.as_str());
        push_path(&mut p, "scans");
        let mut name = chars_of(id);
        append_chars(&mut name, ".json");
        let ns = string_from(&name);
        push_path(&mut p, ns.as_str());
        Ok(string_from(&p))
    }

    /// The directory of the scan `id`'s per-commit results.
    pub fn commits_dir(&self, id: &str) -> (r: Result<String, String>)
        ensures
            match r {
                Ok(p) => spec_valid(id@) && p@ == join_path(scans_dir(self.root@), id@ + "-commits"@),
                Err(m) => !spec_valid(id@) && m@ == "Invalid saved result identifier"@,
            },
    {
        let id = valid(id)?;
        let mut p = chars_of(self.root.as_str());
        push_path(&mut p, "scans");
        let mut name = chars_of(id);
        append_chars(&mut name, "-commits");
        let ns = string_from(&name);
        push_path(&mut p, ns.as_str());
        Ok(string_from(&p))
    }

    /// The file of one commit's result in the scan `id`; both identifiers are checked.
    pub fn commit_file(&self, id: &str, sha: &str) -> (r: Result<String, String>)
        ensures
            match r {
                Ok(p) => spec_valid(id@) && spec_valid(sha@) && p@ == join_path(
                    join_path(scans_dir(self.root@), id@ + "-commits"@),
                    sha@ + ".json"@,
                ),
                Err(m) => !(spec_valid(id@) && spec_valid(sha@)) && m@
                    == "Invalid saved result identifier"@,
            },
    {
        let dir = self.commits_dir(id)?;
        let sha = valid(sha)?;
        let mut p = chars_of(dir.as_str());
        let mut name = chars_of(sha);
        append_chars(&mut name, ".json");
        let ns = string_from(&name);
        push_path(&mut p, ns.as_str());
        Ok(string_from(&p))
    }
}

/// A new scan: running, with the given ID, options and start time, owned by the
/// given process, without results, events or error.
pub fn new_scan(id: String, options: Options, started: String, owner_pid: u32) -> (r: Scan)
    ensures
        r.selection is None,
        r.summary.id@ == id@,
        r.summary.status@ == "running"@,
        r.summary.options == options,
        r.summary.started@ == started@,
        is_initial(r.summary.progress),
        r.results@.len() == 0,
        r.events@.len() == 0,
        r.owner_pid == owner_pid,
        r.error is None,
{
    Scan {
        selection: None,
        summary: Summary {
            id,
            status: String::from_str("running"),
            options,
            started,
            progress: Progress::default(),
        },
        results: Vec::new(),
        events: Vec::new(),
        owner_pid,
        error: None,
    }
}

pub open spec fn interrupted_message() -> Seq<char> {
    "The process stopped before the scan finished. Completed results are saved."@
}

/// `after` is `before` marked interrupted: failed, phase `Interrupted`, nothing
/// active, with the interruption as its error, and otherwise unchanged.
pub open spec fn interrupted(before: Scan, after: Scan) -> bool {
    let (b, a) = (before.summary.progress, after.summary.progress);
    &&& after.summary.status@ == "failed"@
    &&& a.phase@ == "Interrupted"@
    &&& a.active == 0
    &&& after.error matches Some(m) && m@ == interrupted_message()
    &&& after.selection == before.selection
    &&& after.results == before.results
    &&& after.events == before.events
    &&& after.owner_pid == before.owner_pid
    &&& after.summary.id == before.summary.id
    &&& after.summary.options == before.summary.options
    &&& after.summary.started == before.summary.started
    &&& a.done == b.done && a.total == b.total && a.percent == b.percent
    &&& a.commits == b.commits && a.classified == b.classified && a.calls == b.calls
    &&& a.cached == b.cached && a.skipped == b.skipped && a.failed == b.failed
    &&& a.metadata_only == b.metadata_only && a.excluded_changes == b.excluded_changes
    &&& a.excluded_commits == b.excluded_commits && a.bugs == b.bugs && a.security == b.security
    &&& a.requests_per_second == b.requests_per_second && a.elapsed_seconds == b.elapsed_seconds
    &&& a.sections == b.sections && a.reviewed_sections == b.reviewed_sections
    &&& a.input_tokens == b.input_tokens && a.output_tokens == b.output_tokens
    &&& a.cost == b.cost
}

/// A scan saved as running whose process is gone was interrupted: it is failed,
/// phase `Interrupted`, nothing active, with an error saying completed results are
/// saved. The flag tells whether it changed and must be saved again.
pub fn recover(scan: Scan, owner_alive: bool) -> (r: (Scan, bool))
    ensures
        r.1 == (scan.summary.status@ == "running"@ && !owner_alive),
        !r.1 ==> r.0 == scan,
        r.1 ==> interrupted(scan, r.0),
{
    if str_eq(scan.summary.status.as_str(), "running") && !owner_alive {
        let mut scan = scan;
        scan.summary.status = String::from_str("failed");
        scan.summary.progress.phase = String::from_str("Interrupted");
        scan.summary.progress.active = 0;
        scan.error = Some(
            String::from_str(
                "The process stopped before the scan finished. Completed results are saved.",
            ),
        );
        (scan, true)
    } else {
        (scan, false)
    }
}

pub open spec fn start_keys(scans: Seq<Scan>) -> Seq<Seq<char>> {
    scans.map_values(|s: Scan| s.summary.started@)
}

/// Saved scans, most recently started first; scans started at the same time keep
/// their order.
pub fn newest_first(scans: Vec<Scan>) -> (r: Vec<Scan>)
    ensures
        exists|o: Seq<usize>|
            #![trigger is_stable_descending_text(start_keys(scans@), o)]
            is_stable_descending_text(start_keys(scans@), o) && r@ == o.map_values(
                |j: usize| scans@[j as int],
            ),
{
    let ghost all = scans@;
    let mut keys: Vec<Vec<char>> = Vec::new();
    let mut i: usize = 0;
    while i < scans.len()
        invariant
            i <= scans.len(),
            all == scans@,
            keys@.map_values(|k: Vec<char>| k@) == start_keys(all).take(i as int),
        decreases scans.len() - i,
    {
        let ghost before = keys@.map_values(|k: Vec<char>| k@);
        let k = chars_of(scans[i].summary.started.as_str());
        assert(k@ == start_keys(all)[i as int]);
        keys.push(k);
        assert(keys@.map_values(|k: Vec<char>| k@) =~= before.push(k@));
        assert(keys@.map_values(|k: Vec<char>| k@) =~= start_keys(all).take(i + 1));
        i = i + 1;
    }
    assert(start_keys(all).take(scans.len() as int) =~= start_keys(all));
    let order = stable_descending_text(&keys);
    let mut slots: Vec<Option<Scan>> = Vec::new();
    let mut rest = scans;
    let mut j: usize = 0;
    while rest.len() > 0
        invariant
            j + rest@.len() == all.len(),
            all.len() <= usize::MAX,
            rest@ == all.skip(j as int),
            slots@.len() == j,
            forall|x: int| 0 <= x < j ==> (#[trigger] slots@[x]) == Some(all[x]),
        decreases rest@.len(),
    {
        let s = rest.remove(0);
        assert(rest@ =~= all.skip(j + 1));
        slots.push(Some(s));
        j = j + 1;
    }
    let mut out: Vec<Scan> = Vec::new();
    let mut q: usize = 0;
    while q < order.len()
        invariant
            q <= order.len(),
            order.len() == all.len(),
            slots@.len() == all.len(),
            is_stable_descending_text(start_keys(all), order@),
            forall|x: int| 0 <= x < slots@.len() ==> ((#[trigger] slots@[x]) == Some(all[x]) || (
            exists|y: int| 0 <= y < q && order@[y] == x)),
            forall|y: int| q <= y < order.len() ==> slots@[(#[trigger] order@[y]) as int] == Some(
                all[order@[y] as int],
            ),
            out@ == order@.take(q as int).map_values(|x: usize| all[x as int]),
        decreases order.len() - q,
    {
        let x = order[q];
        let ghost before = slots@;
        let taken = slots.remove(x);
        slots.insert(x, None);
        proof {
            assert(taken == Some(all[x as int]));
            assert forall|y: int| q + 1 <= y < order.len() implies slots@[(
            #[trigger] order@[y]) as int] == Some(all[order@[y] as int]) by {
                assert(order@[y] != x) by {
                    assert(text_ranked_before(start_keys(all), order@[q as int] as int, order@[y] as int));
                    if order@[y] == x {
                        crate::order::lemma_text_lt_irreflexive(start_keys(all)[x as int]);
                    }
                }
                assert(slots@[order@[y] as int] == before[order@[y] as int]);
            }
            assert forall|z: int| 0 <= z < slots@.len() implies ((#[trigger] slots@[z]) == Some(all[z])
                || (exists|y: int| 0 <= y < q + 1 && order@[y] == z)) by {
                if z == x {
                    assert(order@[q as int] == z);
                } else {
                    assert(slots@[z] == before[z]);
                }
            }
        }
        match taken {
            Some(s) => {
                out.push(s);
            },
            None => {},
        }
        assert(order@.take(q + 1) =~= order@.take(q as int).push(x));
        q = q + 1;
        assert(out@ =~= order@.take(q as int).map_values(|x: usize| all[x as int]));
    }
    assert(order@.take(order.len() as int) =~= order@);
    assert(is_stable_descending_text(start_keys(scans@), order@));
    out
}

/// A saved scan's identifier never leads out of the scans directory: it has no path
/// separator and no dot, so it cannot name a parent or another directory.
pub proof fn law_identifiers_stay_in_directory(id: Seq<char>)
    requires
        spec_valid(id),
    ensures
        id.len() > 0,
        forall|i: int| 0 <= i < id.len() ==> id[i] != '/' && id[i] != '.' && id[i] != '\\',
{
    assert forall|i: int| 0 <= i < id.len() implies id[i] != '/' && id[i] != '.' && id[i] != '\\' by {
        assert(id_char(id[i]));
    }
}

} // verus!
