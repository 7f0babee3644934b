//! Pulling a repo's current branch from `origin/<branch>`: which git step
//! comes next given what the earlier ones found, and what the pull reports.
//! The caller runs each step and records what it saw; nothing here runs git.
use crate::sync::{first_nonempty_line, nonempty_pred};
use crate::text::{
    chars_of, dec, first_where, lines, or_else, push_decimal, push_str, string_of, trim, trim_or,
    trimmed_all, trimmed_lines,
};
use vstd::prelude::*;

verus! {

/// The classification of what a pull did (or why it did nothing).
#[derive(Debug, Clone, Copy, PartialEq, Eq)]
pub enum PullOutcome {
    /// `git fetch` failed (offline / no remote).
    FetchFailed,
    /// No current branch (detached HEAD): nothing to pull onto.
    DetachedHead,
    /// The current branch has no `origin/<branch>` upstream to pull from.
    NoUpstream,
    /// Local already matches upstream (0 ahead, 0 behind).
    UpToDate,
    /// Local is only ahead of upstream: nothing to pull.
    Ahead,
    /// Local was behind and was fast-forwarded to the upstream.
    FastForwarded,
    /// Local and upstream diverged and were merged cleanly.
    Merged,
    /// They diverged with conflicts; the merge was aborted and the worktree
    /// restored.
    Conflicted,
    /// They diverged with conflicts and `git merge --abort` failed, so the
    /// repo is left mid-merge; git's reason is in the message.
    AbortFailed,
    /// The pull could not be applied; git's error output is in the message.
    Failed,
}

/// Result of pulling a single repo: the outcome plus a readable message.
pub struct PullResult {
    pub outcome: PullOutcome,
    pub message: String,
}

/// The outcomes that leave the repo in a good state.
pub open spec fn pull_success(o: PullOutcome) -> bool {
    matches!(o, PullOutcome::UpToDate | PullOutcome::Ahead | PullOutcome::FastForwarded | PullOutcome::Merged)
}

impl PullResult {
    /// Whether the pull left the repo in a good state: true for up to date,
    /// ahead, fast-forwarded or merged; false for everything else.
    pub fn success(&self) -> (r: bool)
        ensures
            r == pull_success(self.outcome),
    {
        match self.outcome {
            PullOutcome::UpToDate | PullOutcome::Ahead | PullOutcome::FastForwarded
            | PullOutcome::Merged => true,
            _ => false,
        }
    }
}

/// How one git command run went.
#[derive(Debug, Clone)]
pub enum GitRun {
    /// git ran and exited; its output as text.
    Exited { success: bool, stdout: String, stderr: String },
    /// git could not be run; the error as text.
    NotStarted(String),
}

/// What asking git whether a merge is in progress answered.
#[derive(Debug, Clone)]
pub enum MergeState {
    /// `MERGE_HEAD` is (`true`) or is not (`false`) in the repo's git dir.
    Known(bool),
    /// git could not be asked; the reason as text.
    Unknown(String),
}

/// What the pull has found so far, one field per step; `None` is a step
/// that has not run.
#[derive(Debug, Clone)]
pub struct PullFacts {
    /// The current branch, or `Some(None)` when HEAD is detached.
    pub branch: Option<Option<String>>,
    /// Whether a merge was in progress before anything ran.
    pub merge_before: Option<MergeState>,
    /// `git fetch --quiet origin`.
    pub fetch: Option<GitRun>,
    /// Whether `refs/remotes/origin/<branch>` exists after the fetch.
    pub upstream: Option<bool>,
    /// `(ahead, behind)` against `origin/<branch>`.
    pub counts: Option<(u64, u64)>,
    /// `git merge --ff-only origin/<branch>`.
    pub fast_forward: Option<GitRun>,
    /// `git merge --no-edit origin/<branch>`.
    pub merge: Option<GitRun>,
    /// Whether a merge is in progress after that merge failed.
    pub merge_after: Option<MergeState>,
    /// `git merge --abort`.
    pub abort: Option<GitRun>,
}

impl PullFacts {
    /// Nothing found yet.
    pub fn new() -> (r: Self)
        ensures
            r.branch is None,
            r.merge_before is None,
            r.fetch is None,
            r.upstream is None,
            r.counts is None,
            r.fast_forward is None,
            r.merge is None,
            r.merge_after is None,
            r.abort is None,
    {
        PullFacts {
            branch: None,
            merge_before: None,
            fetch: None,
            upstream: None,
            counts: None,
            fast_forward: None,
            merge: None,
            merge_after: None,
            abort: None,
        }
    }
}

/// The next thing a pull does.
pub enum PullStep {
    /// Read the current branch (`git symbolic-ref --quiet --short HEAD`).
    ReadBranch,
    /// Ask whether a merge is in progress (before anything acts).
    ProbeMerge,
    /// `git fetch --quiet origin`.
    Fetch,
    /// Ask whether this fully qualified remote-tracking ref exists.
    CheckUpstream(String),
    /// Count commits ahead of and behind `origin/<branch>`.
    CountAheadBehind,
    /// `git merge --ff-only <ref>`.
    FastForward(String),
    /// `git merge --no-edit <ref>` (run with `LC_ALL=C`).
    Merge(String),
    /// Ask again whether a merge is in progress, after the merge failed.
    ProbeMergeAgain,
    /// `git merge --abort` (run with `LC_ALL=C`).
    AbortMerge,
    /// The pull is over.
    Finished(PullResult),
}

/// A step with its text as `Seq<char>`.
pub enum PullStepView {
    ReadBranch,
    ProbeMerge,
    Fetch,
    CheckUpstream(Seq<char>),
    CountAheadBehind,
    FastForward(Seq<char>),
    Merge(Seq<char>),
    ProbeMergeAgain,
    AbortMerge,
    Finished(PullOutcome, Seq<char>),
}

pub open spec fn step_view(s: PullStep) -> PullStepView {
    match s {
        PullStep::ReadBranch => PullStepView::ReadBranch,
        PullStep::ProbeMerge => PullStepView::ProbeMerge,
        PullStep::Fetch => PullStepView::Fetch,
        PullStep::CheckUpstream(r) => PullStepView::CheckUpstream(r@),
        PullStep::CountAheadBehind => PullStepView::CountAheadBehind,
        PullStep::FastForward(r) => PullStepView::FastForward(r@),
        PullStep::Merge(r) => PullStepView::Merge(r@),
        PullStep::ProbeMergeAgain => PullStepView::ProbeMergeAgain,
        PullStep::AbortMerge => PullStepView::AbortMerge,
        PullStep::Finished(res) => PullStepView::Finished(res.outcome, res.message@),
    }
}

/// The run exited with success.
pub open spec fn ran_ok(r: GitRun) -> bool {
    r matches GitRun::Exited { success: true, .. }
}

/// `origin/<branch>`.
pub open spec fn upstream_of(b: Seq<char>) -> Seq<char> {
    "origin/"@ + b
}

/// git's trimmed stderr, or a fixed sentence when it wrote nothing.
pub open spec fn detail(stderr: Seq<char>) -> Seq<char> {
    or_else(trim(stderr), "git reported no error output"@)
}

/// The report of a fetch that did not succeed.
pub open spec fn fetch_failure(r: GitRun) -> Seq<char> {
    match r {
        GitRun::Exited { stderr, .. } => if trim(stderr@).len() == 0 {
            "Fetch failed: no remote or offline."@
        } else {
            "Fetch failed: "@ + trim(stderr@)
        },
        GitRun::NotStarted(e) => "Fetch failed: "@ + e@,
    }
}

/// Why `git merge --abort` failed: the first non-empty line of its stderr.
pub open spec fn abort_reason(r: GitRun) -> Seq<char> {
    match r {
        GitRun::Exited { stderr, .. } => match first_where(
            trimmed_all(lines(stderr@)),
            nonempty_pred(),
        ) {
            Some(l) => l,
            None => "git reported no error output"@,
        },
        GitRun::NotStarted(e) => e@,
    }
}

/// The merge half of a pull of a branch `a` ahead and `h` behind.
pub open spec fn merge_stage(b: Seq<char>, a: u64, h: u64, f: PullFacts) -> PullStepView {
    let rr = upstream_of(b);
    match f.merge {
        None => PullStepView::Merge(rr),
        Some(GitRun::NotStarted(e)) => PullStepView::Finished(
            PullOutcome::Failed,
            "Merge of "@ + rr + " into "@ + b + " failed: "@ + e@,
        ),
        Some(GitRun::Exited { success, stderr, .. }) => if success {
            PullStepView::Finished(
                PullOutcome::Merged,
                "Merged "@ + rr + " into "@ + b + " ("@ + dec(a as nat) + " ahead, "@ + dec(
                    h as nat,
                ) + " behind)."@,
            )
        } else {
            match f.merge_after {
                None => PullStepView::ProbeMergeAgain,
                Some(MergeState::Known(true)) => match f.abort {
                    None => PullStepView::AbortMerge,
                    Some(run) => if ran_ok(run) {
                        PullStepView::Finished(
                            PullOutcome::Conflicted,
                            "Merge of "@ + rr + " into "@ + b
                                + " conflicted; aborted and restored a clean worktree."@,
                        )
                    } else {
                        PullStepView::Finished(
                            PullOutcome::AbortFailed,
                            "Merge of "@ + rr + " into "@ + b
                                + " conflicted and 'git merge --abort' failed:\n"@ + abort_reason(
                                run,
                            ) + "\n"@ + b
                                + " is still mid-merge (MERGE_HEAD present); resolve the conflicts and run 'git merge --continue', or run 'git merge --abort'."@,
                        )
                    },
                },
                Some(MergeState::Known(false)) => PullStepView::Finished(
                    PullOutcome::Failed,
                    "Merge of "@ + rr + " into "@ + b + " failed: "@ + detail(stderr@),
                ),
                Some(MergeState::Unknown(e)) => PullStepView::Finished(
                    PullOutcome::Failed,
                    "Merge of "@ + rr + " into "@ + b + " failed: "@ + detail(stderr@)
                        + "\ngit could not say whether a merge was left in progress ("@ + e@
                        + "); check 'git status' in that repo before pulling again."@,
                ),
            }
        },
    }
}

/// The pull once the branch is known to be `a` ahead and `h` behind: a
/// fast-forward when only behind, a merge when diverged, nothing otherwise.
pub open spec fn counted_stage(b: Seq<char>, a: u64, h: u64, f: PullFacts) -> PullStepView {
    let rr = upstream_of(b);
    if h > 0 && a == 0 {
        match f.fast_forward {
            None => PullStepView::FastForward(rr),
            Some(GitRun::NotStarted(e)) => PullStepView::Finished(
                PullOutcome::Failed,
                "Fast-forward of "@ + b + " to "@ + rr + " failed: "@ + e@,
            ),
            Some(GitRun::Exited { success, stderr, .. }) => if success {
                PullStepView::Finished(
                    PullOutcome::FastForwarded,
                    "Fast-forwarded "@ + b + " to "@ + rr + " ("@ + dec(h as nat)
                        + " commit(s))."@,
                )
            } else {
                PullStepView::Finished(
                    PullOutcome::Failed,
                    "Fast-forward of "@ + b + " to "@ + rr + " failed: "@ + detail(stderr@),
                )
            },
        }
    } else if a > 0 && h > 0 {
        merge_stage(b, a, h, f)
    } else if a > 0 {
        PullStepView::Finished(
            PullOutcome::Ahead,
            b + " is "@ + dec(a as nat) + " commit(s) ahead of upstream; nothing to pull."@,
        )
    } else {
        PullStepView::Finished(PullOutcome::UpToDate, b + " is already up to date."@)
    }
}

/// The pull of branch `b` once no merge was found in progress.
pub open spec fn fetched_stage(b: Seq<char>, f: PullFacts) -> PullStepView {
    match f.fetch {
        None => PullStepView::Fetch,
        Some(run) => if !ran_ok(run) {
            PullStepView::Finished(PullOutcome::FetchFailed, fetch_failure(run))
        } else {
            match f.upstream {
                None => PullStepView::CheckUpstream("refs/remotes/origin/"@ + b),
                Some(false) => PullStepView::Finished(
                    PullOutcome::NoUpstream,
                    b + " has no upstream (origin/"@ + b + ") to pull."@,
                ),
                Some(true) => match f.counts {
                    None => PullStepView::CountAheadBehind,
                    Some((a, h)) => counted_stage(b, a, h, f),
                },
            }
        },
    }
}

/// What a pull does next given what it has found. A detached HEAD and a
/// merge already in progress are reported before anything runs; a fetch
/// failure, a missing upstream, and each git refusal end the pull with its
/// report.
pub open spec fn pull_spec(f: PullFacts) -> PullStepView {
    match f.branch {
        None => PullStepView::ReadBranch,
        Some(None) => PullStepView::Finished(
            PullOutcome::DetachedHead,
            "Detached HEAD: no branch to pull."@,
        ),
        Some(Some(b)) => match f.merge_before {
            None => PullStepView::ProbeMerge,
            Some(MergeState::Known(true)) => PullStepView::Finished(
                PullOutcome::Failed,
                b@
                    + " is mid-merge (MERGE_HEAD present); run 'git merge --continue' or 'git merge --abort' in that repo before pulling."@,
            ),
            Some(MergeState::Unknown(e)) => PullStepView::Finished(
                PullOutcome::Failed,
                "Could not tell whether "@ + b@ + " is mid-merge ("@ + e@
                    + "); nothing was pulled."@,
            ),
            Some(MergeState::Known(false)) => fetched_stage(b@, f),
        },
    }
}

fn finished(outcome: PullOutcome, message: String) -> (r: PullStep)
    ensures
        step_view(r) == PullStepView::Finished(outcome, message@),
{
    PullStep::Finished(PullResult { outcome, message })
}

fn abort_reason_of(run: &GitRun) -> (r: String)
    ensures
        r@ == abort_reason(*run),
{
    match run {
        GitRun::Exited { stderr, .. } => {
            let v = chars_of(stderr.as_str());
            let ls = trimmed_lines(&v);
            match first_nonempty_line(&ls) {
                Some(i) => string_of(ls[i].as_slice()),
                None => String::from_str("git reported no error output"),
            }
        },
        GitRun::NotStarted(e) => e.clone(),
    }
}

fn merge_step(b: &str, a: u64, h: u64, f: &PullFacts) -> (r: PullStep)
    ensures
        step_view(r) == merge_stage(b@, a, h, *f),
{
    let mut rr = String::from_str("origin/");
    push_str(&mut rr, b);
    match &f.merge {
        None => PullStep::Merge(rr),
        Some(GitRun::NotStarted(e)) => {
            let mut m = String::from_str("Merge of ");
            push_str(&mut m, rr.as_str());
            push_str(&mut m, " into ");
            push_str(&mut m, b);
            push_str(&mut m, " failed: ");
            push_str(&mut m, e.as_str());
            assert(m@ =~= "Merge of "@ + rr@ + " into "@ + b@ + " failed: "@ + e@);
            finished(PullOutcome::Failed, m)
        },
        Some(GitRun::Exited { success, stderr, .. }) => {
            if *success {
                let mut m = String::from_str("Merged ");
                push_str(&mut m, rr.as_str());
                push_str(&mut m, " into ");
                push_str(&mut m, b);
                push_str(&mut m, " (");
                push_decimal(&mut m, a);
                push_str(&mut m, " ahead, ");
                push_decimal(&mut m, h);
                push_str(&mut m, " behind).");
                assert(m@ =~= "Merged "@ + rr@ + " into "@ + b@ + " ("@ + dec(a as nat)
                    + " ahead, "@ + dec(h as nat) + " behind)."@);
                return finished(PullOutcome::Merged, m);
            }
            match &f.merge_after {
                None => PullStep::ProbeMergeAgain,
                Some(MergeState::Known(true)) => match &f.abort {
                    None => PullStep::AbortMerge,
                    Some(run) => {
                        let ok = match run {
                            GitRun::Exited { success, .. } => *success,
                            _ => false,
                        };
                        if ok {
                            let mut m = String::from_str("Merge of ");
                            push_str(&mut m, rr.as_str());
                            push_str(&mut m, " into ");
                            push_str(&mut m, b);
                            push_str(&mut m, " conflicted; aborted and restored a clean worktree.");
                            assert(m@ =~= "Merge of "@ + rr@ + " into "@ + b@
                                + " conflicted; aborted and restored a clean worktree."@);
                            finished(PullOutcome::Conflicted, m)
                        } else {
                            let reason = abort_reason_of(run);
                            let mut m = String::from_str("Merge of ");
                            push_str(&mut m, rr.as_str());
                            push_str(&mut m, " into ");
                            push_str(&mut m, b);
                            push_str(&mut m, " conflicted and 'git merge --abort' failed:\n");
                            push_str(&mut m, reason.as_str());
                            push_str(&mut m, "\n");
                            push_str(&mut m, b);
                            push_str(&mut m, " is still mid-merge (MERGE_HEAD present); resolve the conflicts and run 'git merge --continue', or run 'git merge --abort'.");
                            assert(m@ =~= "Merge of "@ + rr@ + " into "@ + b@
                                + " conflicted and 'git merge --abort' failed:\n"@ + reason@
                                + "\n"@ + b@
                                + " is still mid-merge (MERGE_HEAD present); resolve the conflicts and run 'git merge --continue', or run 'git merge --abort'."@);
                            finished(PullOutcome::AbortFailed, m)
                        }
                    },
                },
                Some(MergeState::Known(false)) => {
                    let d = trim_or(stderr.as_str(), "git reported no error output");
                    let mut m = String::from_str("Merge of ");
                    push_str(&mut m, rr.as_str());
                    push_str(&mut m, " into ");
                    push_str(&mut m, b);
                    push_str(&mut m, " failed: ");
                    push_str(&mut m, d.as_str());
                    assert(m@ =~= "Merge of "@ + rr@ + " into "@ + b@ + " failed: "@ + d@);
                    finished(PullOutcome::Failed, m)
                },
                Some(MergeState::Unknown(e)) => {
                    let d = trim_or(stderr.as_str(), "git reported no error output");
                    let mut m = String::from_str("Merge of ");
                    push_str(&mut m, rr.as_str());
                    push_str(&mut m, " into ");
                    push_str(&mut m, b);
                    push_str(&mut m, " failed: ");
                    push_str(&mut m, d.as_str());
                    push_str(&mut m, "\ngit could not say whether a merge was left in progress (");
                    push_str(&mut m, e.as_str());
                    push_str(&mut m, "); check 'git status' in that repo before pulling again.");
                    assert(m@ =~= "Merge of "@ + rr@ + " into "@ + b@ + " failed: "@ + d@
                        + "\ngit could not say whether a merge was left in progress ("@ + e@
                        + "); check 'git status' in that repo before pulling again."@);
                    finished(PullOutcome::Failed, m)
                },
            }
        },
    }
}

fn counted_step(b: &str, a: u64, h: u64, f: &PullFacts) -> (r: PullStep)
    ensures
        step_view(r) == counted_stage(b@, a, h, *f),
{
    if h > 0 && a == 0 {
        let mut rr = String::from_str("origin/");
        push_str(&mut rr, b);
        match &f.fast_forward {
            None => PullStep::FastForward(rr),
            Some(GitRun::NotStarted(e)) => {
                let mut m = String::from_str("Fast-forward of ");
                push_str(&mut m, b);
                push_str(&mut m, " to ");
                push_str(&mut m, rr.as_str());
                push_str(&mut m, " failed: ");
                push_str(&mut m, e.as_str());
                assert(m@ =~= "Fast-forward of "@ + b@ + " to "@ + rr@ + " failed: "@ + e@);
                finished(PullOutcome::Failed, m)
            },
            Some(GitRun::Exited { success, stderr, .. }) => {
                if *success {
                    let mut m = String::from_str("Fast-forwarded ");
                    push_str(&mut m, b);
                    push_str(&mut m, " to ");
                    push_str(&mut m, rr.as_str());
                    push_str(&mut m, " (");
                    push_decimal(&mut m, h);
                    push_str(&mut m, " commit(s)).");
                    assert(m@ =~= "Fast-forwarded "@ + b@ + " to "@ + rr@ + " ("@ + dec(h as nat)
                        + " commit(s))."@);
                    finished(PullOutcome::FastForwarded, m)
                } else {
                    let d = trim_or(stderr.as_str(), "git reported no error output");
                    let mut m = String::from_str("Fast-forward of ");
                    push_str(&mut m, b);
                    push_str(&mut m, " to ");
                    push_str(&mut m, rr.as_str());
                    push_str(&mut m, " failed: ");
                    push_str(&mut m, d.as_str());
                    assert(m@ =~= "Fast-forward of "@ + b@ + " to "@ + rr@ + " failed: "@ + d@);
                    finished(PullOutcome::Failed, m)
                }
            },
        }
    } else if a > 0 && h > 0 {
        merge_step(b, a, h, f)
    } else if a > 0 {
        let mut m = String::from_str(b);
        push_str(&mut m, " is ");
        push_decimal(&mut m, a);
        push_str(&mut m, " commit(s) ahead of upstream; nothing to pull.");
        assert(m@ =~= b@ + " is "@ + dec(a as nat)
            + " commit(s) ahead of upstream; nothing to pull."@);
        finished(PullOutcome::Ahead, m)
    } else {
        let mut m = String::from_str(b);
        push_str(&mut m, " is already up to date.");
        finished(PullOutcome::UpToDate, m)
    }
}

fn fetched_step(b: &str, f: &PullFacts) -> (r: PullStep)
    ensures
        step_view(r) == fetched_stage(b@, *f),
{
    match &f.fetch {
        None => PullStep::Fetch,
        Some(run) => {
            let ok = match run {
                GitRun::Exited { success, .. } => *success,
                _ => false,
            };
            if !ok {
                let m = match run {
                    GitRun::Exited { stderr, .. } => {
                        let t = trim_or(stderr.as_str(), "");
                        proof {
                            reveal_strlit("");
                        }
                        if t.as_str().unicode_len() == 0 {
                            String::from_str("Fetch failed: no remote or offline.")
                        } else {
                            let mut m = String::from_str("Fetch failed: ");
                            push_str(&mut m, t.as_str());
                            m
                        }
                    },
                    GitRun::NotStarted(e) => {
                        let mut m = String::from_str("Fetch failed: ");
                        push_str(&mut m, e.as_str());
                        m
                    },
                };
                return finished(PullOutcome::FetchFailed, m);
            }
            match f.upstream {
                None => {
                    let mut r = String::from_str("refs/remotes/origin/");
                    push_str(&mut r, b);
                    PullStep::CheckUpstream(r)
                },
                Some(false) => {
                    let mut m = String::from_str(b);
                    push_str(&mut m, " has no upstream (origin/");
                    push_str(&mut m, b);
                    push_str(&mut m, ") to pull.");
                    assert(m@ =~= b@ + " has no upstream (origin/"@ + b@ + ") to pull."@);
                    finished(PullOutcome::NoUpstream, m)
                },
                Some(true) => match f.counts {
                    None => PullStep::CountAheadBehind,
                    Some((a, h)) => counted_step(b, a, h, f),
                },
            }
        },
    }
}

/// Every step but the last asks for a fact that is still missing: a
/// driver that records each finding is never asked for it again.
pub proof fn lemma_pull_asks_only_for_missing_facts(f: PullFacts)
    ensures
        match pull_spec(f) {
            PullStepView::ReadBranch => f.branch is None,
            PullStepView::ProbeMerge => f.merge_before is None,
            PullStepView::Fetch => f.fetch is None,
            PullStepView::CheckUpstream(_) => f.upstream is None,
            PullStepView::CountAheadBehind => f.counts is None,
            PullStepView::FastForward(_) => f.fast_forward is None,
            PullStepView::Merge(_) => f.merge is None,
            PullStepView::ProbeMergeAgain => f.merge_after is None,
            PullStepView::AbortMerge => f.abort is None,
            PullStepView::Finished(_, _) => true,
        },
{
}

/// `git merge --abort` is only ever run on a merge this pull started: no
/// merge was in progress before the pull, its own merge exited with failure,
/// and a merge was found in progress afterwards.
pub proof fn lemma_pull_aborts_only_its_own_merge(f: PullFacts)
    requires
        pull_spec(f) is AbortMerge,
    ensures
        f.merge_before == Some(MergeState::Known(false)),
        f.merge matches Some(GitRun::Exited { success: false, .. }),
        f.merge_after == Some(MergeState::Known(true)),
        f.fetch matches Some(GitRun::Exited { success: true, .. }),
{
}

/// A pull never leaves behind a merge it started: when its own merge
/// failed and left the repo mid-merge, the pull is only reported after
/// `git merge --abort` was tried, as a conflict that was cleaned up when
/// the abort worked and as a failed abort, still mid-merge, when it did not.
pub proof fn lemma_pull_never_leaves_its_merge_behind(f: PullFacts)
    requires
        pull_spec(f) is Finished,
        f.branch matches Some(Some(_)),
        f.merge_before == Some(MergeState::Known(false)),
        f.fetch matches Some(r) && ran_ok(r),
        f.upstream == Some(true),
        f.counts matches Some((a, h)) && a > 0 && h > 0,
        f.merge matches Some(GitRun::Exited { success: false, .. }),
        f.merge_after == Some(MergeState::Known(true)),
    ensures
        f.abort is Some,
        pull_spec(f) matches PullStepView::Finished(o, _) && (o == PullOutcome::Conflicted || o
            == PullOutcome::AbortFailed) && (o == PullOutcome::Conflicted <==> ran_ok(f.abort.unwrap())),
{
}

/// Once the fetch worked and `origin/<branch>` exists, the counts decide:
/// a branch behind and not ahead is fast-forwarded onto `origin/<branch>`;
/// behind and ahead, merged with it; only ahead, reported ahead; neither,
/// reported up to date. Up to date is reported for nothing else.
pub proof fn lemma_pull_follows_the_counts(f: PullFacts, a: u64, h: u64)
    requires
        f.branch matches Some(Some(_)),
        f.merge_before == Some(MergeState::Known(false)),
        f.fetch matches Some(r) && ran_ok(r),
        f.upstream == Some(true),
        f.counts == Some((a, h)),
    ensures
        h > 0 && a == 0 && f.fast_forward is None ==> pull_spec(f) == PullStepView::FastForward(
            "origin/"@ + f.branch.unwrap().unwrap()@,
        ),
        h > 0 && a > 0 && f.merge is None ==> pull_spec(f) == PullStepView::Merge(
            "origin/"@ + f.branch.unwrap().unwrap()@,
        ),
        h == 0 && a > 0 ==> pull_spec(f) matches PullStepView::Finished(PullOutcome::Ahead, _),
        h == 0 && a == 0 ==> pull_spec(f) matches PullStepView::Finished(PullOutcome::UpToDate, _),
        h > 0 ==> !(pull_spec(f) matches PullStepView::Finished(PullOutcome::UpToDate, _))
            && !(pull_spec(f) matches PullStepView::Finished(PullOutcome::Ahead, _)),
{
}

/// Up to date is only ever reported for a branch that was fetched, has
/// `origin/<branch>`, and is neither ahead nor behind it.
pub proof fn lemma_up_to_date_means_level_with_origin(f: PullFacts)
    requires
        pull_spec(f) matches PullStepView::Finished(PullOutcome::UpToDate, _),
    ensures
        f.branch matches Some(Some(_)),
        f.fetch matches Some(r) && ran_ok(r),
        f.upstream == Some(true),
        f.counts == Some((0u64, 0u64)),
{
}

/// A pull onto a detached HEAD, or onto a branch that is already mid-merge
/// (or whose merge state cannot be read), ends there, before any fetch or
/// merge: whatever else is recorded does not change the report.
pub proof fn lemma_pull_stops_before_touching_a_busy_repo(f: PullFacts, g: PullFacts)
    requires
        f.branch == g.branch,
        f.branch is Some,
        f.branch == Some(None::<String>) || (f.merge_before == g.merge_before && f.merge_before is Some
            && f.merge_before != Some(MergeState::Known(false))),
    ensures
        pull_spec(f) is Finished,
        pull_spec(f) == pull_spec(g),
        pull_spec(f) matches PullStepView::Finished(o, _) && !pull_success(o),
{
}

/// The branch only moves (fast-forward or merge) after a successful fetch,
/// onto `origin/<branch>` when that ref exists: a fast-forward when the
/// branch is only behind, a merge when it has diverged.
pub proof fn lemma_pull_moves_only_onto_a_fetched_upstream(f: PullFacts)
    requires
        pull_spec(f) is FastForward || pull_spec(f) is Merge,
    ensures
        f.branch matches Some(Some(b)) && (pull_spec(f) == PullStepView::FastForward(
            upstream_of(b@),
        ) || pull_spec(f) == PullStepView::Merge(upstream_of(b@))),
        f.merge_before == Some(MergeState::Known(false)),
        f.fetch matches Some(GitRun::Exited { success: true, .. }),
        f.upstream == Some(true),
        f.counts matches Some((a, h)) && h > 0 && (pull_spec(f) is FastForward <==> a == 0),
{
}

/// A fetch that fails ends the pull with a fetch-failure report, before
/// anything looks at the upstream.
pub proof fn lemma_pull_failed_fetch_is_reported(f: PullFacts)
    requires
        f.branch matches Some(Some(_)),
        f.merge_before == Some(MergeState::Known(false)),
        f.fetch matches Some(r) && !ran_ok(r),
    ensures
        pull_spec(f) matches PullStepView::Finished(PullOutcome::FetchFailed, _),
{
}

/// The next step of a pull, from what it has found so far.
pub fn pull_next(f: &PullFacts) -> (r: PullStep)
    ensures
        step_view(r) == pull_spec(*f),
{
    match &f.branch {
        None => PullStep::ReadBranch,
        Some(None) => finished(
            PullOutcome::DetachedHead,
            String::from_str("Detached HEAD: no branch to pull."),
        ),
        Some(Some(b)) => match &f.merge_before {
            None => PullStep::ProbeMerge,
            Some(MergeState::Known(true)) => {
                let mut m = String::from_str(b.as_str());
                push_str(&mut m, " is mid-merge (MERGE_HEAD present); run 'git merge --continue' or 'git merge --abort' in that repo before pulling.");
                finished(PullOutcome::Failed, m)
            },
            Some(MergeState::Unknown(e)) => {
                let mut m = String::from_str("Could not tell whether ");
                push_str(&mut m, b.as_str());
                push_str(&mut m, " is mid-merge (");
                push_str(&mut m, e.as_str());
                push_str(&mut m, "); nothing was pulled.");
                assert(m@ =~= "Could not tell whether "@ + b@ + " is mid-merge ("@ + e@
                    + "); nothing was pulled."@);
                finished(PullOutcome::Failed, m)
            },
            Some(MergeState::Known(false)) => fetched_step(b.as_str(), f),
        },
    }
}

} // verus!
