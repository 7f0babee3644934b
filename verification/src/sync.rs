//! The sync of a repo before a space is created: how its `git fetch` ended,
//! which branches it fast-forwarded, and why git refused the others.
use crate::text::{
    chars_of, ends, first_where, lemma_first_where_end, lemma_first_where_step, lines, lines_view,
    push_str, slice_range, split_once, split_once_at, starts, starts_with, string_of,
    strings_view, trimmed_all, trimmed_lines,
};
use crate::pull::GitRun;
use vstd::prelude::*;

verus! {

/// Why a branch that was strictly behind `origin/<name>` was not
/// fast-forwarded.
#[derive(Debug, Clone, PartialEq, Eq)]
pub enum SkipReason {
    /// git refused because the branch is checked out in the worktree at
    /// this path.
    CheckedOutAt(String),
    /// Any refusal the parser does not recognise; git's line verbatim.
    Other(String),
}

/// A branch the sync tried to fast-forward and git refused.
#[derive(Debug, Clone, PartialEq, Eq)]
pub struct SkippedBranch {
    pub name: String,
    pub reason: SkipReason,
}

/// Start of the `stderr` of a `FetchOutcome::Failed` whose git never ran.
pub const SPAWN_FAILURE_PREFIX: &'static str = "failed to spawn git";

/// How the `git fetch` half of a sync ended. Durations are nanoseconds.
#[derive(Debug, Clone, PartialEq, Eq)]
pub enum FetchOutcome {
    Succeeded,
    /// git exited non-zero or the fetch never got a result. `exit_code` is
    /// `None` when git did not start, the wait failed, the run was cancelled
    /// before the fetch, or git was stopped by a signal. `elapsed_nanos` is
    /// the wall clock of the whole run, zero when nothing ran.
    Failed { exit_code: Option<i32>, stderr: String, elapsed_nanos: u64 },
    /// The wall-clock limit expired and git's process group was stopped.
    TimedOut { after_nanos: u64, stderr: String },
}

/// Wall-clock limit on a fetch run under the unattended-run policy (60 s).
pub const UNATTENDED_FETCH_TIMEOUT: u64 = 60_000_000_000;

/// A fetch that failed at or above this (5 s) is not run again before the
/// worktree is created. It sits between every fast refusal measured (under
/// 2 s) and the slow cases (over a minute), well inside the fetch limit.
pub const SLOW_FETCH_THRESHOLD: u64 = 5_000_000_000;

/// `is_slow_with`: a timeout is slow at any threshold, a failure when it
/// took at least the threshold, a fetch that worked never.
pub open spec fn slow_with(f: FetchOutcome, threshold: u64) -> bool {
    match f {
        FetchOutcome::Succeeded => false,
        FetchOutcome::Failed { elapsed_nanos, .. } => elapsed_nanos >= threshold,
        FetchOutcome::TimedOut { .. } => true,
    }
}

impl FetchOutcome {
    /// Whether repeating this fetch would very likely cost what it cost the
    /// first time, against `SLOW_FETCH_THRESHOLD`.
    pub fn is_slow(&self) -> (r: bool)
        ensures
            r == slow_with(*self, SLOW_FETCH_THRESHOLD),
    {
        self.is_slow_with(SLOW_FETCH_THRESHOLD)
    }

    /// `is_slow` against an explicit threshold in nanoseconds.
    pub fn is_slow_with(&self, threshold: u64) -> (r: bool)
        ensures
            r == slow_with(*self, threshold),
    {
        match self {
            FetchOutcome::Succeeded => false,
            FetchOutcome::Failed { elapsed_nanos, .. } => *elapsed_nanos >= threshold,
            FetchOutcome::TimedOut { .. } => true,
        }
    }
}

/// The per-repo result inside a sync report.
#[derive(Debug, Clone, PartialEq, Eq)]
pub struct SyncOutcome {
    pub fetch: FetchOutcome,
    /// Branches fast-forwarded, in the order they were tried.
    pub forwarded: Vec<String>,
    /// Branches that were behind but git refused to move, with the reason.
    pub skipped: Vec<SkippedBranch>,
}

impl SyncOutcome {
    /// Whether the fetch half worked.
    pub fn fetch_ok(&self) -> (r: bool)
        ensures
            r == (self.fetch is Succeeded),
            !r && self.work_follows_fetch() ==> self.forwarded@.len() == 0 && self.skipped@.len() == 0,
    {
        match self.fetch {
            FetchOutcome::Succeeded => true,
            _ => false,
        }
    }

    /// An outcome with no branch work: a failed fetch does no more.
    pub fn without_branch_work(fetch: FetchOutcome) -> (r: Self)
        ensures
            r.fetch == fetch,
            r.forwarded@.len() == 0,
            r.skipped@.len() == 0,
            r.work_follows_fetch(),
    {
        SyncOutcome { fetch, forwarded: Vec::new(), skipped: Vec::new() }
    }

    /// The outcome of a sync cancelled before it started: nothing ran, so it
    /// costs nothing and is not slow.
    pub fn cancelled() -> (r: Self)
        ensures
            r.fetch == (FetchOutcome::Failed {
                exit_code: None,
                stderr: r.fetch->Failed_stderr,
                elapsed_nanos: 0,
            }),
            r.fetch->Failed_stderr@ == "sync cancelled"@,
            r.forwarded@.len() == 0,
            r.skipped@.len() == 0,
            r.work_follows_fetch(),
    {
        SyncOutcome::without_branch_work(
            FetchOutcome::Failed {
                exit_code: None,
                stderr: String::from_str("sync cancelled"),
                elapsed_nanos: 0,
            },
        )
    }

    /// Whether the outcome reports branch work only after a fetch that
    /// succeeded: a failed, timed-out or cancelled fetch comes with no
    /// branch forwarded and none skipped.
    pub open spec fn work_follows_fetch(self) -> bool {
        !(self.fetch is Succeeded) ==> self.forwarded@.len() == 0 && self.skipped@.len() == 0
    }

    /// Record what `git branch -f <branch> origin/<branch>` did. Branch work
    /// is only done, so only recorded, after the fetch succeeded.
    pub fn record_branch(&mut self, branch: String, run: BranchRun)
        requires
            old(self).fetch is Succeeded,
        ensures
            final(self).work_follows_fetch(),
            final(self).fetch == old(self).fetch,
            match run {
                BranchRun::Moved => {
                    &&& final(self).forwarded@ == old(self).forwarded@.push(branch)
                    &&& final(self).skipped@ == old(self).skipped@
                },
                BranchRun::Refused { stderr } => {
                    &&& final(self).forwarded@ == old(self).forwarded@
                    &&& final(self).skipped@.len() == old(self).skipped@.len() + 1
                    &&& final(self).skipped@.drop_last() == old(self).skipped@
                    &&& final(self).skipped@.last().name == branch
                    &&& reason_view(final(self).skipped@.last().reason) == skip_reason_spec(
                        stderr@,
                    )
                },
                BranchRun::NotRun { error } => {
                    &&& final(self).forwarded@ == old(self).forwarded@
                    &&& final(self).skipped@.len() == old(self).skipped@.len() + 1
                    &&& final(self).skipped@.drop_last() == old(self).skipped@
                    &&& final(self).skipped@.last().name == branch
                    &&& final(self).skipped@.last().reason matches SkipReason::Other(m) && m@
                        == "failed to run git: "@ + error@
                },
            },
    {
        match run {
            BranchRun::Moved => {
                self.forwarded.push(branch);
            },
            BranchRun::Refused { stderr } => {
                let reason = parse_skip_reason(stderr.as_str());
                self.skipped.push(SkippedBranch { name: branch, reason });
            },
            BranchRun::NotRun { error } => {
                let mut m = String::from_str("failed to run git: ");
                push_str(&mut m, error.as_str());
                self.skipped.push(SkippedBranch { name: branch, reason: SkipReason::Other(m) });
            },
        }
    }
}

/// How one `git branch -f` run went.
#[derive(Debug, Clone)]
pub enum BranchRun {
    /// git exited with success: the branch was fast-forwarded.
    Moved,
    /// git exited non-zero, writing this to stderr.
    Refused { stderr: String },
    /// git could not be run; the error as text.
    NotRun { error: String },
}

/// A skip reason as text.
pub enum SkipView {
    CheckedOutAt(Seq<char>),
    Other(Seq<char>),
}

pub open spec fn reason_view(r: SkipReason) -> SkipView {
    match r {
        SkipReason::CheckedOutAt(p) => SkipView::CheckedOutAt(p@),
        SkipReason::Other(m) => SkipView::Other(m@),
    }
}

/// A line that opens with git's `fatal:` or `error:`.
pub open spec fn refusal_line(l: Seq<char>) -> bool {
    starts(l, "fatal:"@) || starts(l, "error:"@)
}

pub open spec fn nonempty_line(l: Seq<char>) -> bool {
    l.len() > 0
}

pub open spec fn refusal_pred() -> spec_fn(Seq<char>) -> bool {
    |l: Seq<char>| refusal_line(l)
}

pub open spec fn nonempty_pred() -> spec_fn(Seq<char>) -> bool {
    |l: Seq<char>| nonempty_line(l)
}

/// The line of `git branch -f`'s stderr that explains its refusal: the
/// first trimmed line opening with `fatal:` or `error:`, else the first
/// non-empty trimmed line, else a fixed sentence.
pub open spec fn skip_line(stderr: Seq<char>) -> Seq<char> {
    let ls = trimmed_all(lines(stderr));
    match first_where(ls, refusal_pred()) {
        Some(l) => l,
        None => match first_where(ls, nonempty_pred()) {
            Some(l) => l,
            None => "git branch -f failed"@,
        },
    }
}

/// The worktree path a line names after `marker`, when it ends in `'`.
pub open spec fn path_after(line: Seq<char>, marker: Seq<char>) -> Option<Seq<char>> {
    match split_once(line, marker) {
        Some((_, rest)) => if ends(rest, seq!['\'']) {
            Some(rest.drop_last())
        } else {
            None
        },
        None => None,
    }
}

/// git's refusal to `branch -f` read for what it says: the branch is
/// checked out in a worktree at a path (either wording), or anything else
/// kept verbatim.
pub open spec fn skip_reason_spec(stderr: Seq<char>) -> SkipView {
    let line = skip_line(stderr);
    match path_after(line, "used by worktree at '"@) {
        Some(p) => SkipView::CheckedOutAt(p),
        None => match path_after(line, "checked out at '"@) {
            Some(p) => SkipView::CheckedOutAt(p),
            None => SkipView::Other(line),
        },
    }
}

pub fn first_refusal_line(ls: &Vec<Vec<char>>) -> (r: Option<usize>)
    ensures
        match first_where(lines_view(ls@), refusal_pred()) {
            Some(l) => r matches Some(i) && i < ls@.len() && ls@[i as int]@ == l,
            None => r is None,
        },
{
    let ghost lv = lines_view(ls@);
    let ghost p = refusal_pred();
    let fatal = chars_of("fatal:");
    let error = chars_of("error:");
    let mut i: usize = 0;
    proof {
        lemma_first_where_end(lv, p);
    }
    while i < ls.len()
        invariant
            0 <= i <= ls@.len(),
            lv == lines_view(ls@),
            lv.len() == ls@.len(),
            p == refusal_pred(),
            fatal@ == "fatal:"@,
            error@ == "error:"@,
            first_where(lv, p) == first_where(lv.skip(i as int), p),
        decreases ls.len() - i,
    {
        proof {
            lemma_first_where_step(lv, p, i as int);
            assert(lv[i as int] == ls@[i as int]@);
        }
        if starts_with(ls[i].as_slice(), &fatal) || starts_with(ls[i].as_slice(), &error) {
            return Some(i);
        }
        i = i + 1;
    }
    proof {
        lemma_first_where_end(lv, p);
    }
    None
}

pub fn first_nonempty_line(ls: &Vec<Vec<char>>) -> (r: Option<usize>)
    ensures
        match first_where(lines_view(ls@), nonempty_pred()) {
            Some(l) => r matches Some(i) && i < ls@.len() && ls@[i as int]@ == l,
            None => r is None,
        },
{
    let ghost lv = lines_view(ls@);
    let ghost p = nonempty_pred();
    let mut i: usize = 0;
    proof {
        lemma_first_where_end(lv, p);
    }
    while i < ls.len()
        invariant
            0 <= i <= ls@.len(),
            lv == lines_view(ls@),
            lv.len() == ls@.len(),
            p == nonempty_pred(),
            first_where(lv, p) == first_where(lv.skip(i as int), p),
        decreases ls.len() - i,
    {
        proof {
            lemma_first_where_step(lv, p, i as int);
            assert(lv[i as int] == ls@[i as int]@);
        }
        if ls[i].len() > 0 {
            return Some(i);
        }
        i = i + 1;
    }
    proof {
        lemma_first_where_end(lv, p);
    }
    None
}

fn path_after_marker(line: &[char], marker: &str) -> (r: Option<Vec<char>>)
    ensures
        match path_after(line@, marker@) {
            Some(p) => r matches Some(x) && x@ == p,
            None => r is None,
        },
{
    let m = chars_of(marker);
    match split_once_at(line, &m) {
        Some((_, rest)) => {
            if rest.len() > 0 && rest[rest.len() - 1] == '\'' {
                let p = slice_range(&rest, 0, rest.len() - 1);
                assert(rest@.subrange(rest@.len() - 1, rest@.len() as int) =~= seq!['\'']);
                assert(p@ =~= rest@.drop_last());
                Some(p)
            } else {
                proof {
                    if ends(rest@, seq!['\'']) {
                        assert(rest@.subrange(rest@.len() - 1, rest@.len() as int)[0] == '\'');
                    }
                }
                None
            }
        },
        None => None,
    }
}

/// Best-effort parse of git's refusal to `branch -f`: the branch's worktree
/// path when git says a worktree holds it, in either of git's wordings, and
/// otherwise git's explaining line verbatim, so nothing is swallowed.
pub fn parse_skip_reason(stderr: &str) -> (r: SkipReason)
    ensures
        reason_view(r) == skip_reason_spec(stderr@),
{
    let v = chars_of(stderr);
    let ls = trimmed_lines(&v);
    let line: Vec<char> = match first_refusal_line(&ls) {
        Some(i) => slice_range(ls[i].as_slice(), 0, ls[i].len()),
        None => match first_nonempty_line(&ls) {
            Some(i) => slice_range(ls[i].as_slice(), 0, ls[i].len()),
            None => chars_of("git branch -f failed"),
        },
    };
    proof {
        assert forall|i: int| 0 <= i < ls@.len() implies ls@[i]@.subrange(0, ls@[i]@.len() as int)
            =~= ls@[i]@ by {}
    }
    assert(line@ == skip_line(stderr@));
    match path_after_marker(&line, "used by worktree at '") {
        Some(p) => SkipReason::CheckedOutAt(string_of(&p)),
        None => match path_after_marker(&line, "checked out at '") {
            Some(p) => SkipReason::CheckedOutAt(string_of(&p)),
            None => SkipReason::Other(string_of(&line)),
        },
    }
}

/// How a child run under the unattended-run policy ended, as plain values.
#[derive(Debug, Clone)]
pub enum Unattended {
    /// The child exited on its own (or with success during the kill grace).
    Exited { success: bool, code: Option<i32>, stderr: String },
    /// The limit passed and the child did not exit cleanly afterwards.
    TimedOut { stderr: String },
    /// The child could not be started; the error as text.
    SpawnFailed(String),
    /// Waiting for the child failed.
    WaitFailed { stderr: String },
}

/// What a sync of one repo does next.
#[derive(Debug, Clone)]
pub enum SyncStep {
    /// It was cancelled before anything ran: report `SyncOutcome::cancelled`.
    Cancelled,
    /// Fetch `origin` under the unattended-run policy.
    Fetch,
    /// Fast-forward this branch (`fast_forward_args`).
    FastForward(String),
    /// Nothing more runs: report what was recorded.
    Done,
}

/// The next step of a sync: a cancel seen before the fetch ends it with
/// nothing run; a fetch that did not succeed ends it with no branch work;
/// after a good fetch each pending branch is fast-forwarded in turn until
/// the list ends or a cancel is seen.
pub open spec fn sync_spec(
    cancelled: bool,
    fetch: Option<FetchOutcome>,
    pending: Seq<Seq<char>>,
    next: int,
) -> Option<Seq<char>> {
    match fetch {
        Some(FetchOutcome::Succeeded) => if cancelled || next >= pending.len() {
            None
        } else {
            Some(pending[next])
        },
        _ => None,
    }
}

/// The next step of a sync of one repo, from whether a cancel has been
/// seen, the fetch's outcome once it ran, the local branches strictly
/// behind their upstream, and how many of them were handled.
pub fn sync_next(cancelled: bool, fetch: &Option<FetchOutcome>, pending: &[String], next: usize) -> (r: SyncStep)
    ensures
        fetch is None ==> (if cancelled {
            r is Cancelled
        } else {
            r is Fetch
        }),
        fetch is Some ==> match sync_spec(cancelled, *fetch, strings_view(pending@), next as int) {
            Some(b) => r matches SyncStep::FastForward(x) && x@ == b,
            None => r is Done,
        },
{
    match fetch {
        None => if cancelled {
            SyncStep::Cancelled
        } else {
            SyncStep::Fetch
        },
        Some(FetchOutcome::Succeeded) => if cancelled || next >= pending.len() {
            SyncStep::Done
        } else {
            SyncStep::FastForward(pending[next].clone())
        },
        Some(_) => SyncStep::Done,
    }
}

/// Whether a local branch is fast-forwarded by a sync: strictly behind its
/// upstream, with nothing of its own ahead.
pub fn strictly_behind(ahead: usize, behind: usize) -> (r: bool)
    ensures
        r == (ahead == 0 && behind > 0),
{
    ahead == 0 && behind > 0
}

/// How a fast-forward run of git went, for the sync report.
pub fn branch_run(run: GitRun) -> (r: BranchRun)
    ensures
        match run {
            GitRun::Exited { success: true, .. } => r is Moved,
            GitRun::Exited { success: false, stderr, .. } => r matches BranchRun::Refused { stderr: e }
                && e == stderr,
            GitRun::NotStarted(error) => r matches BranchRun::NotRun { error: e } && e == error,
        },
{
    match run {
        GitRun::Exited { success, stderr, .. } => if success {
            BranchRun::Moved
        } else {
            BranchRun::Refused { stderr }
        },
        GitRun::NotStarted(error) => BranchRun::NotRun { error },
    }
}

/// How a run that reached its limit ended, from the exit status the group
/// kill left (`Some((success, code))`, or `None` when it could not be
/// read): a child that still exited with success during the kill grace
/// finished its work and is reported as exited; anything else timed out.
pub fn after_stop(status: Option<(bool, Option<i32>)>, stderr: String) -> (r: Unattended)
    ensures
        match status {
            Some((true, code)) => r == Unattended::Exited { success: true, code, stderr },
            _ => r == Unattended::TimedOut { stderr },
        },
{
    match status {
        Some((true, code)) => Unattended::Exited { success: true, code, stderr },
        _ => Unattended::TimedOut { stderr },
    }
}

/// The fetch outcome of an unattended `git fetch` run that took
/// `elapsed_nanos` under the limit `timeout_nanos`.
pub open spec fn fetch_outcome_spec(run: Unattended, elapsed_nanos: u64, timeout_nanos: u64) -> (
    FetchOutcome,
    Seq<char>,
) {
    match run {
        Unattended::Exited { success, code, stderr } => if success {
            (FetchOutcome::Succeeded, seq![])
        } else {
            (
                FetchOutcome::Failed { exit_code: code, stderr: stderr, elapsed_nanos },
                stderr@,
            )
        },
        Unattended::TimedOut { stderr } => (
            FetchOutcome::TimedOut { after_nanos: timeout_nanos, stderr: stderr },
            stderr@,
        ),
        Unattended::SpawnFailed(e) => (
            FetchOutcome::Failed {
                exit_code: None,
                stderr: arbitrary(),
                elapsed_nanos,
            },
            "failed to spawn git: "@ + e@,
        ),
        Unattended::WaitFailed { stderr } => (
            FetchOutcome::Failed {
                exit_code: None,
                stderr: arbitrary(),
                elapsed_nanos,
            },
            "could not wait for git\n"@ + stderr@,
        ),
    }
}

/// The stderr text an outcome carries (empty for `Succeeded`).
pub open spec fn outcome_stderr(f: FetchOutcome) -> Seq<char> {
    match f {
        FetchOutcome::Succeeded => seq![],
        FetchOutcome::Failed { stderr, .. } => stderr@,
        FetchOutcome::TimedOut { stderr, .. } => stderr@,
    }
}

/// Whether two outcomes agree in everything but their stderr text.
pub open spec fn same_shape(a: FetchOutcome, b: FetchOutcome) -> bool {
    match (a, b) {
        (FetchOutcome::Succeeded, FetchOutcome::Succeeded) => true,
        (
            FetchOutcome::Failed { exit_code: c1, elapsed_nanos: e1, .. },
            FetchOutcome::Failed { exit_code: c2, elapsed_nanos: e2, .. },
        ) => c1 == c2 && e1 == e2,
        (
            FetchOutcome::TimedOut { after_nanos: a1, .. },
            FetchOutcome::TimedOut { after_nanos: a2, .. },
        ) => a1 == a2,
        _ => false,
    }
}

/// Report an unattended `git fetch --quiet origin` run as a fetch outcome:
/// success is `Succeeded`; a failure keeps git's exit code and stderr and the time
/// it took; a timeout records the limit; a spawn or wait failure has no
/// exit code and says which in its stderr.
pub fn fetch_outcome(run: Unattended, elapsed_nanos: u64, timeout_nanos: u64) -> (r: FetchOutcome)
    ensures
        same_shape(r, fetch_outcome_spec(run, elapsed_nanos, timeout_nanos).0),
        outcome_stderr(r) == fetch_outcome_spec(run, elapsed_nanos, timeout_nanos).1,
{
    match run {
        Unattended::Exited { success, code, stderr } => {
            if success {
                FetchOutcome::Succeeded
            } else {
                FetchOutcome::Failed { exit_code: code, stderr, elapsed_nanos }
            }
        },
        Unattended::TimedOut { stderr } => FetchOutcome::TimedOut {
            after_nanos: timeout_nanos,
            stderr,
        },
        Unattended::SpawnFailed(e) => {
            let mut m = String::from_str("failed to spawn git: ");
            push_str(&mut m, e.as_str());
            FetchOutcome::Failed { exit_code: None, stderr: m, elapsed_nanos }
        },
        Unattended::WaitFailed { stderr } => {
            let mut m = String::from_str("could not wait for git\n");
            push_str(&mut m, stderr.as_str());
            FetchOutcome::Failed { exit_code: None, stderr: m, elapsed_nanos }
        },
    }
}

/// The arguments that move `branch` to `origin/<branch>`: `branch -f`.
pub fn fast_forward_args(branch: &str) -> (r: Vec<String>)
    ensures
        r@.map_values(|a: String| a@) == seq!["branch"@, "-f"@, branch@, "origin/"@ + branch@],
{
    let mut v: Vec<String> = Vec::new();
    v.push(String::from_str("branch"));
    v.push(String::from_str("-f"));
    v.push(String::from_str(branch));
    let mut r = String::from_str("origin/");
    push_str(&mut r, branch);
    v.push(r);
    assert(v@.map_values(|a: String| a@) =~= seq!["branch"@, "-f"@, branch@, "origin/"@ + branch@]);
    v
}

/// Slowness only grows as the threshold falls: a fetch slow at one
/// threshold is slow at every lower one; a timeout is slow at all of them;
/// a fetch that worked at none. The fixed threshold sits below the fetch
/// limit, so a failure can be slow without having timed out.
pub proof fn lemma_slowness_is_monotone(f: FetchOutcome, t: u64, u: u64)
    requires
        u <= t,
    ensures
        slow_with(f, t) ==> slow_with(f, u),
        f is TimedOut ==> slow_with(f, t),
        f is Succeeded ==> !slow_with(f, t),
        SLOW_FETCH_THRESHOLD < UNATTENDED_FETCH_TIMEOUT,
{
}

} // verus!
