//! Rebasing, pushing and committing one repo: the git command lines these
//! run and what each reports for what git answered. The caller runs git.
use crate::pull::GitRun;
use crate::text::{chars_of, contains, has_sub, or_else, push_str, trim, trim_or};
use vstd::prelude::*;

verus! {

/// The classification of what a rebase did (or why it did nothing).
#[derive(Debug, Clone, Copy, PartialEq, Eq)]
pub enum RebaseOutcome {
    /// HEAD is detached: no branch to rebase.
    DetachedHead,
    /// The branch was replayed onto the target.
    Rebased,
    /// The branch is already up to date with the target.
    UpToDate,
    /// The rebase hit conflicts; it was aborted and the branch restored.
    Conflicted,
    /// The rebase could not start or apply; git's error output is in the
    /// message.
    Failed,
}

/// Result of rebasing a single repo: the outcome plus a readable message.
pub struct RebaseResult {
    pub outcome: RebaseOutcome,
    pub message: String,
}

pub open spec fn rebase_success(o: RebaseOutcome) -> bool {
    o == RebaseOutcome::Rebased || o == RebaseOutcome::UpToDate
}

impl RebaseResult {
    /// Whether the rebase left the branch in the intended state: a completed
    /// rebase or an already up-to-date branch.
    pub fn success(&self) -> (r: bool)
        ensures
            r == rebase_success(self.outcome),
    {
        match self.outcome {
            RebaseOutcome::Rebased | RebaseOutcome::UpToDate => true,
            _ => false,
        }
    }
}

/// What a rebase has found so far; `None` is a step that has not run.
#[derive(Debug, Clone)]
pub struct RebaseFacts {
    /// The current branch, or `Some(None)` when HEAD is detached.
    pub branch: Option<Option<String>>,
    /// Whether the best-effort `git fetch --quiet origin` has been run
    /// (whatever it answered).
    pub fetched: bool,
    /// `git rebase <onto>` (run with `LC_ALL=C`).
    pub rebase: Option<GitRun>,
    /// Whether `git rebase --abort` ran and succeeded.
    pub aborted: Option<bool>,
}

/// The next thing a rebase does.
pub enum RebaseStep {
    /// Read the current branch (`git symbolic-ref --quiet --short HEAD`).
    ReadBranch,
    /// `git fetch --quiet origin` with `GIT_TERMINAL_PROMPT=0`; its result is
    /// not looked at.
    Fetch,
    /// `git rebase <onto>` with `LC_ALL=C`.
    Rebase,
    /// `git rebase --abort`.
    Abort,
    /// The rebase is over.
    Finished(RebaseResult),
}

pub enum RebaseStepView {
    ReadBranch,
    Fetch,
    Rebase,
    Abort,
    Finished(RebaseOutcome, Seq<char>),
}

pub open spec fn rebase_step_view(s: RebaseStep) -> RebaseStepView {
    match s {
        RebaseStep::ReadBranch => RebaseStepView::ReadBranch,
        RebaseStep::Fetch => RebaseStepView::Fetch,
        RebaseStep::Rebase => RebaseStepView::Rebase,
        RebaseStep::Abort => RebaseStepView::Abort,
        RebaseStep::Finished(r) => RebaseStepView::Finished(r.outcome, r.message@),
    }
}

/// Why a rebase that never started failed: trimmed stderr, else trimmed
/// stdout, else a fixed sentence.
pub open spec fn rebase_detail(stdout: Seq<char>, stderr: Seq<char>) -> Seq<char> {
    or_else(trim(stderr), or_else(trim(stdout), "git reported no error output"@))
}

/// What a rebase of the current branch onto `onto` does next. A detached
/// HEAD and a target starting with `-` are refused before anything runs.
pub open spec fn rebase_spec(onto: Seq<char>, f: RebaseFacts) -> RebaseStepView {
    match f.branch {
        None => RebaseStepView::ReadBranch,
        Some(None) => RebaseStepView::Finished(
            RebaseOutcome::DetachedHead,
            "Detached HEAD: no branch to rebase."@,
        ),
        Some(Some(b)) => if onto.len() > 0 && onto[0] == '-' {
            RebaseStepView::Finished(
                RebaseOutcome::Failed,
                "Refusing to rebase onto '"@ + onto + "': a target may not begin with '-'."@,
            )
        } else if !f.fetched {
            RebaseStepView::Fetch
        } else {
            match f.rebase {
                None => RebaseStepView::Rebase,
                Some(GitRun::NotStarted(e)) => RebaseStepView::Finished(
                    RebaseOutcome::Failed,
                    "Failed to run git rebase: "@ + e@,
                ),
                Some(GitRun::Exited { success, stdout, stderr }) => if success {
                    if has_sub(stdout@, "is up to date"@) {
                        RebaseStepView::Finished(
                            RebaseOutcome::UpToDate,
                            b@ + " is already up to date with "@ + onto + "."@,
                        )
                    } else {
                        RebaseStepView::Finished(
                            RebaseOutcome::Rebased,
                            "Rebased "@ + b@ + " onto "@ + onto + "."@,
                        )
                    }
                } else {
                    match f.aborted {
                        None => RebaseStepView::Abort,
                        Some(true) => RebaseStepView::Finished(
                            RebaseOutcome::Conflicted,
                            "Rebase of "@ + b@ + " onto "@ + onto
                                + " conflicted; aborted and restored the branch.\nResolve the conflicts manually: run 'git rebase "@
                                + onto + "' in a terminal."@,
                        ),
                        Some(false) => RebaseStepView::Finished(
                            RebaseOutcome::Failed,
                            "Rebase of "@ + b@ + " onto "@ + onto + " failed: "@ + rebase_detail(
                                stdout@,
                                stderr@,
                            ),
                        ),
                    }
                },
            }
        },
    }
}

fn finished_rebase(outcome: RebaseOutcome, message: String) -> (r: RebaseStep)
    ensures
        rebase_step_view(r) == RebaseStepView::Finished(outcome, message@),
{
    RebaseStep::Finished(RebaseResult { outcome, message })
}

/// The next step of a rebase onto `onto`, from what it has found so far.
pub fn rebase_next(onto: &str, f: &RebaseFacts) -> (r: RebaseStep)
    ensures
        rebase_step_view(r) == rebase_spec(onto@, *f),
{
    match &f.branch {
        None => RebaseStep::ReadBranch,
        Some(None) => finished_rebase(
            RebaseOutcome::DetachedHead,
            String::from_str("Detached HEAD: no branch to rebase."),
        ),
        Some(Some(b)) => {
            let dash = onto.unicode_len() > 0 && onto.get_char(0) == '-';
            if dash {
                let mut m = String::from_str("Refusing to rebase onto '");
                push_str(&mut m, onto);
                push_str(&mut m, "': a target may not begin with '-'.");
                assert(m@ =~= "Refusing to rebase onto '"@ + onto@
                    + "': a target may not begin with '-'."@);
                return finished_rebase(RebaseOutcome::Failed, m);
            }
            if !f.fetched {
                return RebaseStep::Fetch;
            }
            match &f.rebase {
                None => RebaseStep::Rebase,
                Some(GitRun::NotStarted(e)) => {
                    let mut m = String::from_str("Failed to run git rebase: ");
                    push_str(&mut m, e.as_str());
                    finished_rebase(RebaseOutcome::Failed, m)
                },
                Some(GitRun::Exited { success, stdout, stderr }) => {
                    if *success {
                        let out = chars_of(stdout.as_str());
                        let marker = chars_of("is up to date");
                        if contains(&out, &marker) {
                            let mut m = String::from_str(b.as_str());
                            push_str(&mut m, " is already up to date with ");
                            push_str(&mut m, onto);
                            push_str(&mut m, ".");
                            assert(m@ =~= b@ + " is already up to date with "@ + onto@ + "."@);
                            finished_rebase(RebaseOutcome::UpToDate, m)
                        } else {
                            let mut m = String::from_str("Rebased ");
                            push_str(&mut m, b.as_str());
                            push_str(&mut m, " onto ");
                            push_str(&mut m, onto);
                            push_str(&mut m, ".");
                            assert(m@ =~= "Rebased "@ + b@ + " onto "@ + onto@ + "."@);
                            finished_rebase(RebaseOutcome::Rebased, m)
                        }
                    } else {
                        match f.aborted {
                            None => RebaseStep::Abort,
                            Some(true) => {
                                let mut m = String::from_str("Rebase of ");
                                push_str(&mut m, b.as_str());
                                push_str(&mut m, " onto ");
                                push_str(&mut m, onto);
                                push_str(&mut m, " conflicted; aborted and restored the branch.\nResolve the conflicts manually: run 'git rebase ");
                                push_str(&mut m, onto);
                                push_str(&mut m, "' in a terminal.");
                                assert(m@ =~= "Rebase of "@ + b@ + " onto "@ + onto@
                                    + " conflicted; aborted and restored the branch.\nResolve the conflicts manually: run 'git rebase "@
                                    + onto@ + "' in a terminal."@);
                                finished_rebase(RebaseOutcome::Conflicted, m)
                            },
                            Some(false) => {
                                let inner = trim_or(stdout.as_str(), "git reported no error output");
                                let d = trim_or(stderr.as_str(), inner.as_str());
                                let mut m = String::from_str("Rebase of ");
                                push_str(&mut m, b.as_str());
                                push_str(&mut m, " onto ");
                                push_str(&mut m, onto);
                                push_str(&mut m, " failed: ");
                                push_str(&mut m, d.as_str());
                                assert(m@ =~= "Rebase of "@ + b@ + " onto "@ + onto@ + " failed: "@
                                    + d@);
                                finished_rebase(RebaseOutcome::Failed, m)
                            },
                        }
                    }
                },
            }
        },
    }
}

/// Every step but the last asks for something still missing; a rebase
/// whose target begins with `-` never runs git with it.
pub proof fn lemma_rebase_progress(onto: Seq<char>, f: RebaseFacts)
    ensures
        match rebase_spec(onto, f) {
            RebaseStepView::ReadBranch => f.branch is None,
            RebaseStepView::Fetch => !f.fetched,
            RebaseStepView::Rebase => f.rebase is None,
            RebaseStepView::Abort => f.aborted is None,
            RebaseStepView::Finished(_, _) => true,
        },
        (onto.len() > 0 && onto[0] == '-') ==> !(rebase_spec(onto, f) is Rebase),
{
}

/// A rebase is only aborted after it ran and failed, and the branch is only
/// rebased after the best-effort fetch was attempted.
pub proof fn lemma_rebase_aborts_only_a_failed_rebase(onto: Seq<char>, f: RebaseFacts)
    requires
        rebase_spec(onto, f) is Abort || rebase_spec(onto, f) is Rebase,
    ensures
        f.fetched,
        f.branch matches Some(Some(_)),
        rebase_spec(onto, f) is Abort ==> (f.rebase matches Some(GitRun::Exited { success: false, .. })),
{
}

/// A rebase is never left in progress: once git ran it and it failed, the
/// result is only reported after the abort was tried, and it reads as a
/// conflict that was cleaned up only when the abort worked.
pub proof fn lemma_rebase_never_left_in_progress(onto: Seq<char>, f: RebaseFacts)
    requires
        rebase_spec(onto, f) is Finished,
        f.branch matches Some(Some(_)),
        !(onto.len() > 0 && onto[0] == '-'),
        f.rebase matches Some(GitRun::Exited { success: false, .. }),
    ensures
        f.aborted is Some,
        rebase_spec(onto, f) matches RebaseStepView::Finished(o, _) && (o == RebaseOutcome::Conflicted
            <==> f.aborted == Some(true)),
{
}

/// Result of a push: whether git accepted it, plus a readable message.
pub struct PushResult {
    pub success: bool,
    pub message: String,
}

/// The arguments of the push of `branch`: `push -u origin <branch>` when it
/// sets the upstream, a bare `push` otherwise.
pub open spec fn push_args_spec(branch: Seq<char>, set_upstream: bool) -> Seq<Seq<char>> {
    if set_upstream {
        seq!["push"@, "-u"@, "origin"@, branch]
    } else {
        seq!["push"@]
    }
}

/// The git arguments that push `branch`.
pub fn push_args(branch: &str, set_upstream: bool) -> (r: Vec<String>)
    ensures
        r@.map_values(|a: String| a@) == push_args_spec(branch@, set_upstream),
{
    let mut v: Vec<String> = Vec::new();
    v.push(String::from_str("push"));
    if set_upstream {
        v.push(String::from_str("-u"));
        v.push(String::from_str("origin"));
        v.push(String::from_str(branch));
    }
    assert(v@.map_values(|a: String| a@) =~= push_args_spec(branch@, set_upstream));
    v
}

/// The report of the push of `branch`: git's trimmed stderr (where it writes
/// both its summary and its refusals), else its trimmed stdout, else a fixed
/// sentence; or why git could not be run.
pub open spec fn push_report(branch: Seq<char>, run: GitRun) -> (bool, Seq<char>) {
    match run {
        GitRun::Exited { success, stdout, stderr } => (
            success,
            or_else(trim(stderr@), or_else(trim(stdout@), "Pushed "@ + branch + "."@)),
        ),
        GitRun::NotStarted(e) => (false, "Failed to run git push: "@ + e@),
    }
}

/// What a push reports; `None` for the branch when HEAD is detached, where
/// nothing is run.
pub fn push_result(branch: Option<&str>, run: &GitRun) -> (r: PushResult)
    ensures
        branch is None ==> !r.success && r.message@ == "Detached HEAD: no branch to push."@,
        branch matches Some(b) ==> (r.success, r.message@) == push_report(b@, *run),
{
    match branch {
        None => PushResult {
            success: false,
            message: String::from_str("Detached HEAD: no branch to push."),
        },
        Some(b) => match run {
            GitRun::Exited { success, stdout, stderr } => {
                let mut fallback = String::from_str("Pushed ");
                push_str(&mut fallback, b);
                push_str(&mut fallback, ".");
                let inner = trim_or(stdout.as_str(), fallback.as_str());
                let message = trim_or(stderr.as_str(), inner.as_str());
                PushResult { success: *success, message }
            },
            GitRun::NotStarted(e) => {
                let mut m = String::from_str("Failed to run git push: ");
                push_str(&mut m, e.as_str());
                PushResult { success: false, message: m }
            },
        },
    }
}

/// Result of a commit: whether git accepted it, plus git's own summary.
pub struct CommitResult {
    pub success: bool,
    pub message: String,
}

/// The git arguments that commit what is staged with `message`.
pub fn commit_args(message: &str) -> (r: Vec<String>)
    ensures
        r@.map_values(|a: String| a@) == seq!["commit"@, "-m"@, message@],
{
    let mut v: Vec<String> = Vec::new();
    v.push(String::from_str("commit"));
    v.push(String::from_str("-m"));
    v.push(String::from_str(message));
    assert(v@.map_values(|a: String| a@) =~= seq!["commit"@, "-m"@, message@]);
    v
}

/// The report of a commit: git's trimmed stdout (its summary, and its
/// "nothing to commit" refusal), else its trimmed stderr, else a fixed
/// sentence; or why git could not be run.
pub open spec fn commit_report(run: GitRun) -> (bool, Seq<char>) {
    match run {
        GitRun::Exited { success, stdout, stderr } => (
            success,
            or_else(trim(stdout@), or_else(trim(stderr@), "Committed."@)),
        ),
        GitRun::NotStarted(e) => (false, "Failed to run git commit: "@ + e@),
    }
}

/// What a commit reports for what git answered.
pub fn commit_result(run: &GitRun) -> (r: CommitResult)
    ensures
        (r.success, r.message@) == commit_report(*run),
{
    match run {
        GitRun::Exited { success, stdout, stderr } => {
            let inner = trim_or(stderr.as_str(), "Committed.");
            let message = trim_or(stdout.as_str(), inner.as_str());
            CommitResult { success: *success, message }
        },
        GitRun::NotStarted(e) => {
            let mut m = String::from_str("Failed to run git commit: ");
            push_str(&mut m, e.as_str());
            CommitResult { success: false, message: m }
        },
    }
}

/// A push or a commit succeeds exactly when git ran and exited with success:
/// the message never decides it.
pub proof fn lemma_success_is_gits_exit(b: Seq<char>, run: GitRun)
    ensures
        push_report(b, run).0 == (run matches GitRun::Exited { success: true, .. }),
        commit_report(run).0 == (run matches GitRun::Exited { success: true, .. }),
        push_report(b, run).1.len() > 0,
{
    reveal_strlit("Pushed ");
    reveal_strlit("Failed to run git push: ");
}

} // verus!
