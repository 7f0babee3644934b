//! Creating and switching worktrees: the checks made before anything is
//! run, whether a pre-create fetch is worth running, what a worktree
//! already at the target path means, which git commands a branch switch
//! runs, and the sentence each git refusal is reported with.
use crate::names::{checked_space_name, plain_component_error};
use crate::paths::join;
use crate::shown::{debug_path, debug_path_str, debug_str};
use crate::text::{
    chars_of, lines, lines_of, lines_view, or_else, push_str, slice_range, starts, starts_with,
    string_of, strings_view, trim, trimmed, trim_start,
};
use crate::worktree::{
    default_remote, existing_split, existing_split_spec, slot_for, slot_spec, split_view,
    writes_under, refspec_writes_under, BranchStrategy,
};
use vstd::prelude::*;

verus! {

/// Why an attempt fails before anything is run: a space name that is not
/// one plain component, or a `-b` slot name that git would read as an
/// option.
pub open spec fn preflight_error(
    ws_name: Seq<char>,
    strategy: BranchStrategy,
    remotes: Seq<String>,
    whole_is_local: Option<bool>,
) -> Option<Seq<char>> {
    match plain_component_error(ws_name) {
        Some(m) => Some("invalid space name "@ + debug_str(ws_name) + ": "@ + m),
        None => match slot_spec(strategy, existing_split_spec(strategy, remotes, whole_is_local)) {
            Some(b) => if b.len() > 0 && b[0] == '-' {
                Some("'"@ + b + "' is not a valid branch name"@)
            } else {
                None
            },
            None => None,
        },
    }
}

/// The checks a worktree creation makes before it touches anything; on
/// success, the settled `(remote, local)` split the add uses.
pub fn create_preflight(
    ws_name: &str,
    strategy: &BranchStrategy,
    remotes: &[String],
    whole_is_local: Option<bool>,
) -> (r: Result<Option<(String, String)>, String>)
    ensures
        match preflight_error(ws_name@, *strategy, remotes@, whole_is_local) {
            Some(e) => r matches Err(x) && x@ == e,
            None => r matches Ok(s) && split_view(s) == existing_split_spec(
                *strategy,
                remotes@,
                whole_is_local,
            ),
        },
{
    checked_space_name(ws_name)?;
    let split = existing_split(strategy, remotes, whole_is_local);
    if let Some(b) = slot_for(strategy, &split) {
        let dash = b.as_str().unicode_len() > 0 && b.as_str().get_char(0) == '-';
        if dash {
            let mut m = String::from_str("'");
            push_str(&mut m, b.as_str());
            push_str(&mut m, "' is not a valid branch name");
            assert(m@ =~= "'"@ + b@ + "' is not a valid branch name"@);
            return Err(m);
        }
    }
    Ok(split)
}

/// Whether a creation refreshes the repo's refs first, and under what
/// limit (in nanoseconds).
#[derive(Debug, Clone, Copy, PartialEq, Eq)]
pub enum PreCreateFetch {
    Skip,
    Run(u64),
}

/// The limit of the pre-create fetch, if one runs: none when skipped, when
/// cancelled, or when the strategy reads no ref a fetch of origin writes.
pub open spec fn fetch_limit_spec(fetch: PreCreateFetch, cancelled: bool, reads_origin: bool) -> Option<u64> {
    match fetch {
        PreCreateFetch::Skip => None,
        PreCreateFetch::Run(limit) => if cancelled || !reads_origin {
            None
        } else {
            Some(limit)
        },
    }
}

/// Whether the pre-create fetch runs, and under what limit.
pub fn pre_create_fetch_limit(fetch: PreCreateFetch, cancelled: bool, reads_origin: bool) -> (r:
    Option<u64>)
    ensures
        r == fetch_limit_spec(fetch, cancelled, reads_origin),
{
    match fetch {
        PreCreateFetch::Skip => None,
        PreCreateFetch::Run(limit) => if cancelled || !reads_origin {
            None
        } else {
            Some(limit)
        },
    }
}

/// What creating a worktree does next, once the name, the branch slot and
/// the parent directory were checked.
#[derive(Debug, Clone)]
pub enum CreateStep {
    /// Ask whether the strategy reads a ref a fetch of origin writes
    /// (`strategy_reads_origin`).
    AskOrigin,
    /// Fetch origin under this limit, in nanoseconds.
    Fetch(u64),
    /// Stop: the creation was cancelled; the error it reports.
    Cancelled(String),
    /// Add the worktree (`worktree_add_args`).
    Add,
}

/// A step as plain values.
pub enum CreateStepView {
    AskOrigin,
    Fetch(u64),
    Cancelled(Seq<char>),
    Add,
}

pub open spec fn create_step_view(s: CreateStep) -> CreateStepView {
    match s {
        CreateStep::AskOrigin => CreateStepView::AskOrigin,
        CreateStep::Fetch(l) => CreateStepView::Fetch(l),
        CreateStep::Cancelled(m) => CreateStepView::Cancelled(m@),
        CreateStep::Add => CreateStepView::Add,
    }
}

/// After the fetch stage: a cancel seen by then stops the creation, else
/// the worktree is added.
pub open spec fn after_fetch_spec(cancelled: bool) -> CreateStepView {
    if cancelled {
        CreateStepView::Cancelled("worktree creation cancelled"@)
    } else {
        CreateStepView::Add
    }
}

/// The next step of a creation, from the fetch policy, whether a cancel has
/// been seen, whether the strategy reads origin (once asked), and whether
/// the fetch stage is over. The question is only asked, and the fetch only
/// run, when a fetch is wanted and no cancel was seen.
pub open spec fn create_spec(
    fetch: PreCreateFetch,
    cancelled: bool,
    reads_origin: Option<bool>,
    fetch_done: bool,
) -> CreateStepView {
    if fetch_done {
        after_fetch_spec(cancelled)
    } else if fetch is Run && !cancelled && reads_origin is None {
        CreateStepView::AskOrigin
    } else {
        match fetch_limit_spec(fetch, cancelled, reads_origin == Some(true)) {
            Some(limit) => CreateStepView::Fetch(limit),
            None => after_fetch_spec(cancelled),
        }
    }
}

/// The next step of creating a worktree.
pub fn create_next(fetch: PreCreateFetch, cancelled: bool, reads_origin: Option<bool>, fetch_done: bool) -> (r:
    CreateStep)
    ensures
        create_step_view(r) == create_spec(fetch, cancelled, reads_origin, fetch_done),
{
    let after = if cancelled {
        CreateStep::Cancelled(String::from_str("worktree creation cancelled"))
    } else {
        CreateStep::Add
    };
    if fetch_done {
        return after;
    }
    if let PreCreateFetch::Run(_) = fetch {
        if !cancelled && reads_origin.is_none() {
            return CreateStep::AskOrigin;
        }
    }
    let reads = match reads_origin {
        Some(b) => b,
        None => false,
    };
    match pre_create_fetch_limit(fetch, cancelled, reads) {
        Some(limit) => CreateStep::Fetch(limit),
        None => after,
    }
}

/// A cancel seen before the add means no add, and a cancel seen before the
/// fetch means no fetch either: the creation stops with the cancelled
/// error.
pub proof fn lemma_a_cancel_runs_neither_fetch_nor_add(
    fetch: PreCreateFetch,
    reads_origin: Option<bool>,
    fetch_done: bool,
)
    ensures
        create_spec(fetch, true, reads_origin, fetch_done) == CreateStepView::Cancelled(
            "worktree creation cancelled"@,
        ),
{
}

/// `refs/remotes/<remote>/`.
pub open spec fn tracking_prefix(remote: Seq<char>) -> Seq<char> {
    "refs/remotes/"@ + remote + "/"@
}

/// The prefix of the remote-tracking refs of `remote`.
pub fn tracking_prefix_of(remote: &str) -> (r: String)
    ensures
        r@ == tracking_prefix(remote@),
{
    let mut m = String::from_str("refs/remotes/");
    push_str(&mut m, remote);
    push_str(&mut m, "/");
    m
}

/// Whether `git fetch origin` writes under `prefix`, given the values of
/// `remote.origin.fetch` (`None` for one that cannot be read) and whether
/// the configuration could be read at all: unknown counts as yes.
pub open spec fn fetch_writes_spec(config_ok: bool, specs: Seq<Option<String>>, prefix: Seq<char>) -> bool {
    !config_ok || exists|i: int|
        0 <= i < specs.len() && match #[trigger] specs[i] {
            None => true,
            Some(s) => writes_under(s@, prefix),
        }
}

/// Whether a fetch of origin, configured with these refspecs, writes under
/// `prefix`.
pub fn fetch_writes_under(config_ok: bool, specs: &[Option<String>], prefix: &str) -> (r: bool)
    ensures
        r == fetch_writes_spec(config_ok, specs@, prefix@),
{
    if !config_ok {
        return true;
    }
    let mut i: usize = 0;
    while i < specs.len()
        invariant
            0 <= i <= specs.len(),
            config_ok,
            forall|j: int|
                0 <= j < i ==> !match #[trigger] specs@[j] {
                    None => true,
                    Some(s) => writes_under(s@, prefix@),
                },
        decreases specs.len() - i,
    {
        match &specs[i] {
            None => {
                assert(match specs@[i as int] {
                    None => true,
                    Some(s) => writes_under(s@, prefix@),
                });
                return true;
            },
            Some(s) => {
                if refspec_writes_under(s.as_str(), prefix) {
                    assert(match specs@[i as int] {
                        None => true,
                        Some(s) => writes_under(s@, prefix@),
                    });
                    return true;
                }
            },
        }
        i = i + 1;
    }
    false
}

/// What a pre-create fetch could change for a strategy: a new branch
/// always reads origin (its start point); an existing branch split at
/// origin reads it; otherwise only a fetch configured to write local
/// branches, or the split remote's tracking refs, or an existing branch
/// with no local copy yet, makes the fetch matter. A repo that cannot be
/// opened counts as reading it.
pub open spec fn reads_origin_spec(
    strategy: BranchStrategy,
    split: Option<(Seq<char>, Seq<char>)>,
    repo_open: bool,
    writes_heads: bool,
    writes_tracking: bool,
    local_branch_found: bool,
) -> bool {
    match strategy {
        BranchStrategy::NewBranch(_) => true,
        BranchStrategy::ExistingBranch(_) => match split {
            Some((remote, _)) => remote == default_remote() || !repo_open || writes_heads
                || writes_tracking,
            None => !repo_open || writes_heads || !local_branch_found,
        },
        BranchStrategy::DetachedHead => !repo_open || writes_heads,
    }
}

/// Whether the pre-create fetch can change what the add reads.
/// `writes_heads` is whether origin's fetch writes under `refs/heads/`,
/// `writes_tracking` whether it writes under the split remote's
/// tracking-ref prefix, and `local_branch_found` whether the existing
/// branch has a local branch.
pub fn strategy_reads_origin(
    strategy: &BranchStrategy,
    split: &Option<(String, String)>,
    repo_open: bool,
    writes_heads: bool,
    writes_tracking: bool,
    local_branch_found: bool,
) -> (r: bool)
    ensures
        r == reads_origin_spec(
            *strategy,
            split_view(*split),
            repo_open,
            writes_heads,
            writes_tracking,
            local_branch_found,
        ),
{
    match strategy {
        BranchStrategy::NewBranch(_) => true,
        BranchStrategy::ExistingBranch(_) => match split {
            Some((remote, _)) => {
                let origin = crate::text::same_text(remote.as_str(), "origin");
                proof {
                    reveal_strlit("origin");
                }
                origin || !repo_open || writes_heads || writes_tracking
            },
            None => !repo_open || writes_heads || !local_branch_found,
        },
        BranchStrategy::DetachedHead => !repo_open || writes_heads,
    }
}

/// What a directory already at a worktree's path means for the add.
#[derive(Debug, Clone, PartialEq, Eq)]
pub enum Placement {
    /// A finished worktree of this repo: adopt it and run nothing.
    Adopted,
    /// A worktree of this repo whose add never finished; the reason.
    HalfBuilt(String),
    /// Anything else: attempt the add, and let git refuse.
    Attempt,
}

/// What a worktree already at `wt_path` means: nothing to adopt unless it
/// is a worktree (`admin` its admin directory) that belongs to `repo_path`;
/// a half-built one (locked, with the checkout's `index.lock` and no
/// `index`) is refused with the way out.
pub open spec fn placement_spec(
    wt_path: Seq<char>,
    repo_path: Seq<char>,
    admin: Option<Seq<char>>,
    belongs: bool,
    half_built: bool,
) -> (int, Seq<char>) {
    match admin {
        None => (2, seq![]),
        Some(a) => if !belongs {
            (2, seq![])
        } else if !half_built {
            (0, seq![])
        } else {
            (
                1,
                debug_path_str(wt_path)
                    + " holds a worktree of this repo whose `git worktree add` never finished: its admin directory "@
                    + debug_path_str(a)
                    + " is still locked from the add and holds the checkout's index.lock and no index; nothing was attempted. Remove the space and create it again, or run `git worktree remove -f -f "@
                    + debug_path_str(wt_path) + "` in "@ + debug_path_str(repo_path) + ", then retry"@,
            )
        },
    }
}

/// Whether a worktree's admin directory says its `git worktree add` never
/// finished: still `locked` from the add, with the checkout's `index.lock`
/// a file and no `index` (git writes `index` last).
pub open spec fn half_built_spec(locked_exists: bool, index_lock_is_file: bool, index_exists: bool) -> bool {
    locked_exists && index_lock_is_file && !index_exists
}

/// The half-built verdict from what the admin directory holds.
pub fn half_built_of(locked_exists: bool, index_lock_is_file: bool, index_exists: bool) -> (r: bool)
    ensures
        r == half_built_spec(locked_exists, index_lock_is_file, index_exists),
{
    locked_exists && index_lock_is_file && !index_exists
}

/// A worktree of this repo at the path is refused as half-built exactly
/// when its admin directory is locked, holds `index.lock` as a file and no
/// `index`; otherwise it is adopted.
pub proof fn lemma_half_built_is_refused_and_nothing_else(
    wt_path: Seq<char>,
    repo_path: Seq<char>,
    admin: Seq<char>,
    locked_exists: bool,
    index_lock_is_file: bool,
    index_exists: bool,
)
    ensures
        placement_spec(wt_path, repo_path, Some(admin), true, half_built_spec(locked_exists, index_lock_is_file, index_exists)).0
            == (if locked_exists && index_lock_is_file && !index_exists {
            1int
        } else {
            0int
        }),
{
}

pub open spec fn placement_view(p: Placement) -> (int, Seq<char>) {
    match p {
        Placement::Adopted => (0, seq![]),
        Placement::HalfBuilt(m) => (1, m@),
        Placement::Attempt => (2, seq![]),
    }
}

/// What the directory at `wt_path` means for adding a worktree of
/// `repo_path` there. `admin` is its admin directory when it is a linked
/// worktree, `belongs` whether that admin directory's `commondir` leads to
/// `repo_path`'s git dir, `half_built` whether the admin directory is still
/// locked from an add with the checkout's `index.lock` and no `index`.
pub fn placement_of(wt_path: &str, repo_path: &str, admin: Option<&str>, belongs: bool, half_built: bool) -> (r:
    Placement)
    ensures
        placement_view(r) == placement_spec(
            wt_path@,
            repo_path@,
            match admin {
                Some(a) => Some(a@),
                None => None,
            },
            belongs,
            half_built,
        ),
{
    match admin {
        None => Placement::Attempt,
        Some(a) => {
            if !belongs {
                return Placement::Attempt;
            }
            if !half_built {
                return Placement::Adopted;
            }
            let w = debug_path(wt_path);
            let ad = debug_path(a);
            let rp = debug_path(repo_path);
            let mut m = w.clone();
            push_str(&mut m, " holds a worktree of this repo whose `git worktree add` never finished: its admin directory ");
            push_str(&mut m, ad.as_str());
            push_str(&mut m, " is still locked from the add and holds the checkout's index.lock and no index; nothing was attempted. Remove the space and create it again, or run `git worktree remove -f -f ");
            push_str(&mut m, w.as_str());
            push_str(&mut m, "` in ");
            push_str(&mut m, rp.as_str());
            push_str(&mut m, ", then retry");
            assert(m@ =~= w@
                + " holds a worktree of this repo whose `git worktree add` never finished: its admin directory "@
                + ad@
                + " is still locked from the add and holds the checkout's index.lock and no index; nothing was attempted. Remove the space and create it again, or run `git worktree remove -f -f "@
                + w@ + "` in "@ + rp@ + ", then retry"@);
            Placement::HalfBuilt(m)
        },
    }
}

/// The directory a worktree's `commondir` file (text `content`) names,
/// resolved against its admin directory.
pub fn common_dir_of(admin: &str, content: &str) -> (r: String)
    ensures
        r@ == join(admin@, crate::text::trim_end_of(content@, '\n', '\r')),
{
    let v = chars_of(content);
    let t = crate::text::trimmed_end_of(&v, '\n', '\r');
    let s = string_of(&t);
    crate::paths::path_join(admin, s.as_str())
}

/// The first line of `ls` that starts with `p`, if any.
pub open spec fn first_starting(ls: Seq<Seq<char>>, p: Seq<char>) -> Option<Seq<char>>
    decreases ls.len(),
{
    if ls.len() == 0 {
        None
    } else if starts(ls[0], p) {
        Some(ls[0])
    } else {
        first_starting(ls.drop_first(), p)
    }
}

fn first_line_starting(ls: &Vec<Vec<char>>, p: &str) -> (r: Option<Vec<char>>)
    ensures
        match first_starting(lines_view(ls@), p@) {
            Some(l) => r matches Some(x) && x@ == l,
            None => r is None,
        },
        r matches Some(x) ==> starts(x@, p@),
{
    let pv = chars_of(p);
    let mut i: usize = 0;
    assert(lines_view(ls@).skip(0) =~= lines_view(ls@));
    while i < ls.len()
        invariant
            0 <= i <= ls.len(),
            pv@ == p@,
            first_starting(lines_view(ls@), p@) == first_starting(lines_view(ls@).skip(i as int), p@),
        decreases ls.len() - i,
    {
        let ghost rest = lines_view(ls@).skip(i as int);
        assert(rest[0] == ls@[i as int]@);
        if starts_with(ls[i].as_slice(), pv.as_slice()) {
            let x = slice_range(ls[i].as_slice(), 0, ls[i].len());
            assert(x@ =~= ls@[i as int]@);
            return Some(x);
        }
        assert(rest.drop_first() =~= lines_view(ls@).skip(i + 1));
        i = i + 1;
    }
    None
}

/// How git's refusal to accept a branch name reads: the text after
/// `fatal:` on the first line that starts with it, trimmed, when that is
/// not empty; otherwise a sentence of our own.
pub open spec fn branch_name_refusal(name: Seq<char>, stderr: Seq<char>) -> Seq<char> {
    match first_starting(lines(stderr), "fatal:"@) {
        Some(l) => if trim(l.skip(6)).len() > 0 {
            trim(l.skip(6))
        } else {
            "'"@ + name + "' is not a valid branch name"@
        },
        None => "'"@ + name + "' is not a valid branch name"@,
    }
}

/// The verdict of `git check-ref-format --branch <name>`: fine when git
/// accepted it, or when git could not be run at all (`run` is `None`; the
/// leading-dash hazard is closed elsewhere without git); otherwise git's
/// reason.
pub fn branch_name_verdict(name: &str, run: Option<(bool, String)>) -> (r: Result<(), String>)
    ensures
        match run {
            None => r is Ok,
            Some((ok, stderr)) => if ok {
                r is Ok
            } else {
                r matches Err(e) && e@ == branch_name_refusal(name@, stderr@)
            },
        },
{
    match run {
        None => Ok(()),
        Some((ok, stderr)) => {
            if ok {
                return Ok(());
            }
            let v = chars_of(stderr.as_str());
            let ls = lines_of(&v);
            assert(lines_view(ls@) == lines(stderr@));
            proof {
                reveal_strlit("fatal:");
            }
            match first_line_starting(&ls, "fatal:") {
                Some(l) => {
                    let rest = slice_range(l.as_slice(), 6, l.len());
                    assert(rest@ =~= l@.skip(6));
                    let t = trimmed(&rest);
                    if t.len() > 0 {
                        Err(string_of(&t))
                    } else {
                        let mut m = String::from_str("'");
                        push_str(&mut m, name);
                        push_str(&mut m, "' is not a valid branch name");
                        Err(m)
                    }
                },
                None => {
                    let mut m = String::from_str("'");
                    push_str(&mut m, name);
                    push_str(&mut m, "' is not a valid branch name");
                    Err(m)
                },
            }
        },
    }
}

/// The first of `ls`, trimmed, that is not empty and is none of git's
/// progress lines.
pub open spec fn first_plain(ls: Seq<Seq<char>>) -> Option<Seq<char>>
    decreases ls.len(),
{
    if ls.len() == 0 {
        None
    } else {
        let t = trim(ls[0]);
        if t.len() > 0 && !starts(t, "Preparing worktree"@) && !starts(t, "HEAD is now"@) {
            Some(t)
        } else {
            first_plain(ls.drop_first())
        }
    }
}

/// How a refused `git worktree add` is reported: the `fatal:` line without
/// its prefix(es), trimmed; else the first line that is not progress; else
/// a sentence of our own.
pub open spec fn worktree_add_failure(stderr: Seq<char>) -> Seq<char> {
    match first_starting(lines(stderr), "fatal:"@) {
        Some(l) => trim(crate::text::strip_all(l, "fatal:"@)),
        None => match first_plain(lines(stderr)) {
            Some(t) => t,
            None => "git worktree add failed"@,
        },
    }
}

/// The first of `ls`, trimmed, that is not empty.
pub open spec fn first_nonblank(ls: Seq<Seq<char>>) -> Option<Seq<char>>
    decreases ls.len(),
{
    if ls.len() == 0 {
        None
    } else if trim(ls[0]).len() > 0 {
        Some(trim(ls[0]))
    } else {
        first_nonblank(ls.drop_first())
    }
}

/// The first line that starts with `error:` or `fatal:`.
pub open spec fn first_error_line(ls: Seq<Seq<char>>) -> Option<Seq<char>>
    decreases ls.len(),
{
    if ls.len() == 0 {
        None
    } else if starts(ls[0], "error:"@) || starts(ls[0], "fatal:"@) {
        Some(ls[0])
    } else {
        first_error_line(ls.drop_first())
    }
}

/// How a refused git command run in a worktree is reported: what follows
/// the colon of its first `error:` or `fatal:` line, trimmed; else its
/// first non-empty line; else a sentence of our own.
pub open spec fn git_command_failure(stderr: Seq<char>) -> Seq<char> {
    match first_error_line(lines(stderr)) {
        Some(l) => trim(l.skip(6)),
        None => match first_nonblank(lines(stderr)) {
            Some(t) => t,
            None => "git switch failed"@,
        },
    }
}

fn first_plain_line(ls: &Vec<Vec<char>>) -> (r: Option<Vec<char>>)
    ensures
        match first_plain(lines_view(ls@)) {
            Some(t) => r matches Some(x) && x@ == t,
            None => r is None,
        },
{
    let prep = chars_of("Preparing worktree");
    let head = chars_of("HEAD is now");
    let mut i: usize = 0;
    assert(lines_view(ls@).skip(0) =~= lines_view(ls@));
    while i < ls.len()
        invariant
            0 <= i <= ls.len(),
            prep@ == "Preparing worktree"@,
            head@ == "HEAD is now"@,
            first_plain(lines_view(ls@)) == first_plain(lines_view(ls@).skip(i as int)),
        decreases ls.len() - i,
    {
        let ghost rest = lines_view(ls@).skip(i as int);
        assert(rest[0] == ls@[i as int]@);
        let t = trimmed(ls[i].as_slice());
        if t.len() > 0 && !starts_with(t.as_slice(), prep.as_slice()) && !starts_with(t.as_slice(), head.as_slice()) {
            return Some(t);
        }
        assert(rest.drop_first() =~= lines_view(ls@).skip(i + 1));
        i = i + 1;
    }
    None
}

fn first_nonblank_line(ls: &Vec<Vec<char>>) -> (r: Option<Vec<char>>)
    ensures
        match first_nonblank(lines_view(ls@)) {
            Some(t) => r matches Some(x) && x@ == t,
            None => r is None,
        },
{
    let mut i: usize = 0;
    assert(lines_view(ls@).skip(0) =~= lines_view(ls@));
    while i < ls.len()
        invariant
            0 <= i <= ls.len(),
            first_nonblank(lines_view(ls@)) == first_nonblank(lines_view(ls@).skip(i as int)),
        decreases ls.len() - i,
    {
        let ghost rest = lines_view(ls@).skip(i as int);
        assert(rest[0] == ls@[i as int]@);
        let t = trimmed(ls[i].as_slice());
        if t.len() > 0 {
            return Some(t);
        }
        assert(rest.drop_first() =~= lines_view(ls@).skip(i + 1));
        i = i + 1;
    }
    None
}

fn first_error(ls: &Vec<Vec<char>>) -> (r: Option<Vec<char>>)
    ensures
        match first_error_line(lines_view(ls@)) {
            Some(l) => r matches Some(x) && x@ == l,
            None => r is None,
        },
        r matches Some(x) ==> x@.len() >= 6,
{
    let e = chars_of("error:");
    let f = chars_of("fatal:");
    proof {
        reveal_strlit("error:");
        reveal_strlit("fatal:");
    }
    let mut i: usize = 0;
    assert(lines_view(ls@).skip(0) =~= lines_view(ls@));
    while i < ls.len()
        invariant
            0 <= i <= ls.len(),
            e@ == "error:"@,
            f@ == "fatal:"@,
            e@.len() == 6,
            f@.len() == 6,
            first_error_line(lines_view(ls@)) == first_error_line(lines_view(ls@).skip(i as int)),
        decreases ls.len() - i,
    {
        let ghost rest = lines_view(ls@).skip(i as int);
        assert(rest[0] == ls@[i as int]@);
        if starts_with(ls[i].as_slice(), e.as_slice()) || starts_with(ls[i].as_slice(), f.as_slice()) {
            let x = slice_range(ls[i].as_slice(), 0, ls[i].len());
            assert(x@ =~= ls@[i as int]@);
            return Some(x);
        }
        assert(rest.drop_first() =~= lines_view(ls@).skip(i + 1));
        i = i + 1;
    }
    None
}

/// The outcome of `git worktree add`: `Ok` when git succeeded; otherwise
/// how it is reported (`failed to spawn git` when git could not be run).
pub fn worktree_add_outcome(run: &crate::pull::GitRun) -> (r: Result<(), String>)
    ensures
        match *run {
            crate::pull::GitRun::NotStarted(_) => r matches Err(e) && e@ == "failed to spawn git"@,
            crate::pull::GitRun::Exited { success, stderr, .. } => if success {
                r is Ok
            } else {
                r matches Err(e) && e@ == worktree_add_failure(stderr@)
            },
        },
{
    match run {
        crate::pull::GitRun::NotStarted(_) => Err(String::from_str("failed to spawn git")),
        crate::pull::GitRun::Exited { success, stderr, .. } => {
            if *success {
                return Ok(());
            }
            let v = chars_of(stderr.as_str());
            let ls = lines_of(&v);
            assert(lines_view(ls@) == lines(stderr@));
            match first_line_starting(&ls, "fatal:") {
                Some(l) => {
                    let p = chars_of("fatal:");
                    let stripped = crate::text::strip_all_prefix(l.as_slice(), p.as_slice());
                    Err(string_of(&trimmed(&stripped)))
                },
                None => match first_plain_line(&ls) {
                    Some(t) => Err(string_of(&t)),
                    None => Err(String::from_str("git worktree add failed")),
                },
            }
        },
    }
}

/// The outcome of a git command run in a worktree: `Ok` when git
/// succeeded; otherwise how it is reported (`failed to spawn git` when git
/// could not be run).
pub fn git_command_outcome(run: &crate::pull::GitRun) -> (r: Result<(), String>)
    ensures
        match *run {
            crate::pull::GitRun::NotStarted(_) => r matches Err(e) && e@ == "failed to spawn git"@,
            crate::pull::GitRun::Exited { success, stderr, .. } => if success {
                r is Ok
            } else {
                r matches Err(e) && e@ == git_command_failure(stderr@)
            },
        },
{
    match run {
        crate::pull::GitRun::NotStarted(_) => Err(String::from_str("failed to spawn git")),
        crate::pull::GitRun::Exited { success, stderr, .. } => {
            if *success {
                return Ok(());
            }
            let v = chars_of(stderr.as_str());
            let ls = lines_of(&v);
            assert(lines_view(ls@) == lines(stderr@));
            match first_error(&ls) {
                Some(l) => {
                    let rest = slice_range(l.as_slice(), 6, l.len());
                    assert(rest@ =~= l@.skip(6));
                    Err(string_of(&trimmed(&rest)))
                },
                None => match first_nonblank_line(&ls) {
                    Some(t) => Err(string_of(&t)),
                    None => Err(String::from_str("git switch failed")),
                },
            }
        },
    }
}

/// The next thing a branch switch in a worktree does.
pub enum SwitchStep {
    /// Ask whether this ref exists (`git rev-parse --verify <ref>`).
    Verify(String),
    /// Run git with these arguments in the worktree; its outcome is the
    /// switch's.
    Run(Vec<String>),
}

pub enum SwitchView {
    Verify(Seq<char>),
    Run(Seq<Seq<char>>),
}

pub open spec fn switch_view(s: SwitchStep) -> SwitchView {
    match s {
        SwitchStep::Verify(r) => SwitchView::Verify(r@),
        SwitchStep::Run(a) => SwitchView::Run(strings_view(a@)),
    }
}

/// The local name and the remote ref of a branch as given: `origin/<x>` is
/// `<x>` tracking itself, any other name tracks `origin/<name>`.
pub open spec fn switch_names(branch: Seq<char>) -> (Seq<char>, Seq<char>) {
    if starts(branch, "origin/"@) {
        (branch.skip(7), branch)
    } else {
        (branch, "origin/"@ + branch)
    }
}

/// What switching a worktree to `branch` does next: a new branch is
/// created from HEAD; otherwise the local branch is switched to when it
/// exists, else a local branch tracking the remote one is created when that
/// exists, else git is asked to switch anyway and reports why it cannot.
pub open spec fn switch_spec(
    branch: Seq<char>,
    new_branch: bool,
    local_exists: Option<bool>,
    remote_exists: Option<bool>,
) -> SwitchView {
    let (local, remote_ref) = switch_names(branch);
    if new_branch {
        SwitchView::Run(seq!["switch"@, "-c"@, branch])
    } else {
        match local_exists {
            None => SwitchView::Verify("refs/heads/"@ + local),
            Some(true) => SwitchView::Run(seq!["switch"@, "--"@, local]),
            Some(false) => match remote_exists {
                None => SwitchView::Verify(remote_ref),
                Some(true) => SwitchView::Run(seq!["switch"@, "-c"@, local, remote_ref]),
                Some(false) => SwitchView::Run(seq!["switch"@, "--"@, local]),
            },
        }
    }
}

fn args3(a: &str, b: &str, c: &str) -> (r: Vec<String>)
    ensures
        strings_view(r@) == seq![a@, b@, c@],
{
    let mut v: Vec<String> = Vec::new();
    v.push(String::from_str(a));
    v.push(String::from_str(b));
    v.push(String::from_str(c));
    assert(strings_view(v@) =~= seq![a@, b@, c@]);
    v
}

/// The next step of switching a worktree to `branch`, given what the ref
/// checks found so far.
pub fn switch_next(branch: &str, new_branch: bool, local_exists: Option<bool>, remote_exists: Option<bool>) -> (r:
    SwitchStep)
    ensures
        switch_view(r) == switch_spec(branch@, new_branch, local_exists, remote_exists),
{
    if new_branch {
        return SwitchStep::Run(args3("switch", "-c", branch));
    }
    let v = chars_of(branch);
    let prefix = chars_of("origin/");
    proof {
        reveal_strlit("origin/");
    }
    let (local, remote_ref) = if starts_with(&v, &prefix) {
        let l = slice_range(&v, 7, v.len());
        assert(l@ =~= branch@.skip(7));
        (string_of(&l), String::from_str(branch))
    } else {
        let mut r = String::from_str("origin/");
        push_str(&mut r, branch);
        (String::from_str(branch), r)
    };
    match local_exists {
        None => {
            let mut r = String::from_str("refs/heads/");
            push_str(&mut r, local.as_str());
            SwitchStep::Verify(r)
        },
        Some(true) => {
            let a = args3("switch", "--", local.as_str());
            assert(local@ == switch_names(branch@).0);
            assert(strings_view(a@) =~= seq!["switch"@, "--"@, switch_names(branch@).0]);
            SwitchStep::Run(a)
        },
        Some(false) => match remote_exists {
            None => SwitchStep::Verify(remote_ref),
            Some(true) => {
                let mut a = args3("switch", "-c", local.as_str());
                let ghost before = strings_view(a@);
                let ghost rv = remote_ref@;
                let ghost old_a = a@;
                let last = remote_ref.clone();
                assert(last@ == rv);
                a.push(last);
                assert(a@ == old_a.push(last));
                assert(strings_view(a@) =~= before.push(rv));
                assert(strings_view(a@) =~= seq!["switch"@, "-c"@, switch_names(branch@).0, switch_names(branch@).1]);
                SwitchStep::Run(a)
            },
            Some(false) => {
                let a = args3("switch", "--", local.as_str());
                assert(strings_view(a@) =~= seq!["switch"@, "--"@, switch_names(branch@).0]);
                SwitchStep::Run(a)
            },
        },
    }
}

/// No name that begins with `-` reaches the `-b` slot of the add: when the
/// checks pass, the slot name (if the strategy has one) does not begin with
/// a dash; and the space name is one plain path component.
pub proof fn lemma_preflight_keeps_dashes_out_of_the_branch_slot(
    ws_name: Seq<char>,
    strategy: BranchStrategy,
    remotes: Seq<String>,
    whole_is_local: Option<bool>,
)
    requires
        preflight_error(ws_name, strategy, remotes, whole_is_local) is None,
    ensures
        plain_component_error(ws_name) is None,
        slot_spec(strategy, existing_split_spec(strategy, remotes, whole_is_local)) matches Some(b)
            ==> !(b.len() > 0 && b[0] == '-'),
{
}

/// A branch switch only ever runs `git switch`, and a name taken as a
/// branch stands after `--` or `-c`: it is never read as an option.
pub proof fn lemma_switch_runs_only_switch(
    branch: Seq<char>,
    new_branch: bool,
    local_exists: Option<bool>,
    remote_exists: Option<bool>,
)
    ensures
        switch_spec(branch, new_branch, local_exists, remote_exists) matches SwitchView::Run(a) ==> a.len() >= 3 && a[0] == "switch"@ && (a[1] == "--"@ || a[1] == "-c"@),
{
}

} // verus!
