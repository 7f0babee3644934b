use space::ops::{
    commit_args, commit_result, push_args, push_result, rebase_next, RebaseFacts, RebaseOutcome,
    RebaseStep,
};
use space::pull::{pull_next, GitRun, MergeState, PullFacts, PullOutcome, PullStep};

fn ok(stdout: &str, stderr: &str) -> GitRun {
    GitRun::Exited { success: true, stdout: stdout.to_string(), stderr: stderr.to_string() }
}

fn failed(stdout: &str, stderr: &str) -> GitRun {
    GitRun::Exited { success: false, stdout: stdout.to_string(), stderr: stderr.to_string() }
}

fn finished(step: PullStep) -> (PullOutcome, String) {
    match step {
        PullStep::Finished(r) => (r.outcome, r.message),
        _ => panic!("the pull was expected to be over"),
    }
}

fn on_branch(b: &str) -> PullFacts {
    let mut f = PullFacts::new();
    f.branch = Some(Some(b.to_string()));
    f.merge_before = Some(MergeState::Known(false));
    f.fetch = Some(ok("", ""));
    f.upstream = Some(true);
    f
}

#[test]
fn a_pull_asks_for_each_fact_in_order() {
    let mut f = PullFacts::new();
    assert!(matches!(pull_next(&f), PullStep::ReadBranch));
    f.branch = Some(Some("main".to_string()));
    assert!(matches!(pull_next(&f), PullStep::ProbeMerge));
    f.merge_before = Some(MergeState::Known(false));
    assert!(matches!(pull_next(&f), PullStep::Fetch));
    f.fetch = Some(ok("", ""));
    match pull_next(&f) {
        PullStep::CheckUpstream(r) => assert_eq!(r, "refs/remotes/origin/main"),
        _ => panic!("expected the upstream check"),
    }
    f.upstream = Some(true);
    assert!(matches!(pull_next(&f), PullStep::CountAheadBehind));
}

#[test]
fn a_detached_head_is_reported_before_anything_runs() {
    let mut f = PullFacts::new();
    f.branch = Some(None);
    let (o, m) = finished(pull_next(&f));
    assert_eq!(o, PullOutcome::DetachedHead);
    assert_eq!(m, "Detached HEAD: no branch to pull.");
}

#[test]
fn a_merge_in_progress_fails_the_pull_before_the_fetch() {
    let mut f = PullFacts::new();
    f.branch = Some(Some("main".to_string()));
    f.merge_before = Some(MergeState::Known(true));
    let (o, m) = finished(pull_next(&f));
    assert_eq!(o, PullOutcome::Failed);
    assert_eq!(m, "main is mid-merge (MERGE_HEAD present); run 'git merge --continue' or 'git merge --abort' in that repo before pulling.");
    f.merge_before = Some(MergeState::Unknown("boom".to_string()));
    let (o, m) = finished(pull_next(&f));
    assert_eq!(o, PullOutcome::Failed);
    assert_eq!(m, "Could not tell whether main is mid-merge (boom); nothing was pulled.");
}

#[test]
fn a_failed_fetch_is_reported_with_gits_words() {
    let mut f = on_branch("main");
    f.fetch = Some(failed("", "  fatal: no remote\n"));
    assert_eq!(finished(pull_next(&f)), (PullOutcome::FetchFailed, "Fetch failed: fatal: no remote".to_string()));
    f.fetch = Some(failed("", "\n"));
    assert_eq!(finished(pull_next(&f)), (PullOutcome::FetchFailed, "Fetch failed: no remote or offline.".to_string()));
    f.fetch = Some(GitRun::NotStarted("no git".to_string()));
    assert_eq!(finished(pull_next(&f)), (PullOutcome::FetchFailed, "Fetch failed: no git".to_string()));
}

#[test]
fn a_missing_upstream_is_reported() {
    let mut f = on_branch("feat");
    f.upstream = Some(false);
    assert_eq!(finished(pull_next(&f)), (PullOutcome::NoUpstream, "feat has no upstream (origin/feat) to pull.".to_string()));
}

#[test]
fn counts_decide_between_nothing_fast_forward_and_merge() {
    let mut f = on_branch("main");
    f.counts = Some((0, 0));
    assert_eq!(finished(pull_next(&f)), (PullOutcome::UpToDate, "main is already up to date.".to_string()));
    f.counts = Some((3, 0));
    assert_eq!(finished(pull_next(&f)), (PullOutcome::Ahead, "main is 3 commit(s) ahead of upstream; nothing to pull.".to_string()));
    f.counts = Some((0, 2));
    match pull_next(&f) {
        PullStep::FastForward(r) => assert_eq!(r, "origin/main"),
        _ => panic!("expected a fast-forward"),
    }
    f.fast_forward = Some(ok("", ""));
    let (o, m) = finished(pull_next(&f));
    assert_eq!(o, PullOutcome::FastForwarded);
    assert_eq!(m, "Fast-forwarded main to origin/main (2 commit(s)).");
    assert!(space::pull::PullResult { outcome: o, message: m }.success());
    f.fast_forward = Some(failed("", ""));
    assert_eq!(finished(pull_next(&f)), (PullOutcome::Failed, "Fast-forward of main to origin/main failed: git reported no error output".to_string()));
}

#[test]
fn a_diverged_branch_is_merged_or_aborted() {
    let mut f = on_branch("main");
    f.counts = Some((1, 4));
    match pull_next(&f) {
        PullStep::Merge(r) => assert_eq!(r, "origin/main"),
        _ => panic!("expected a merge"),
    }
    f.merge = Some(ok("", ""));
    assert_eq!(finished(pull_next(&f)), (PullOutcome::Merged, "Merged origin/main into main (1 ahead, 4 behind).".to_string()));
    f.merge = Some(failed("", "CONFLICT\n"));
    assert!(matches!(pull_next(&f), PullStep::ProbeMergeAgain));
    f.merge_after = Some(MergeState::Known(true));
    assert!(matches!(pull_next(&f), PullStep::AbortMerge));
    f.abort = Some(ok("", ""));
    let (o, m) = finished(pull_next(&f));
    assert_eq!(o, PullOutcome::Conflicted);
    assert_eq!(m, "Merge of origin/main into main conflicted; aborted and restored a clean worktree.");
    f.abort = Some(failed("", "\n  error: cannot abort\nmore\n"));
    let (o, m) = finished(pull_next(&f));
    assert_eq!(o, PullOutcome::AbortFailed);
    assert_eq!(m, "Merge of origin/main into main conflicted and 'git merge --abort' failed:\nerror: cannot abort\nmain is still mid-merge (MERGE_HEAD present); resolve the conflicts and run 'git merge --continue', or run 'git merge --abort'.");
    f.merge_after = Some(MergeState::Known(false));
    assert_eq!(finished(pull_next(&f)), (PullOutcome::Failed, "Merge of origin/main into main failed: CONFLICT".to_string()));
    f.merge_after = Some(MergeState::Unknown("x".to_string()));
    assert_eq!(finished(pull_next(&f)).1, "Merge of origin/main into main failed: CONFLICT\ngit could not say whether a merge was left in progress (x); check 'git status' in that repo before pulling again.");
}

fn rebase_done(step: RebaseStep) -> (RebaseOutcome, String) {
    match step {
        RebaseStep::Finished(r) => (r.outcome, r.message),
        _ => panic!("the rebase was expected to be over"),
    }
}

#[test]
fn a_rebase_fetches_then_rebases_then_reports() {
    let mut f = RebaseFacts { branch: None, fetched: false, rebase: None, aborted: None };
    assert!(matches!(rebase_next("main", &f), RebaseStep::ReadBranch));
    f.branch = Some(Some("feat".to_string()));
    assert!(matches!(rebase_next("main", &f), RebaseStep::Fetch));
    f.fetched = true;
    assert!(matches!(rebase_next("main", &f), RebaseStep::Rebase));
    f.rebase = Some(ok("Current branch feat is up to date.\n", ""));
    assert_eq!(rebase_done(rebase_next("main", &f)), (RebaseOutcome::UpToDate, "feat is already up to date with main.".to_string()));
    f.rebase = Some(ok("Successfully rebased\n", ""));
    let (o, m) = rebase_done(rebase_next("main", &f));
    assert_eq!((o, m.as_str()), (RebaseOutcome::Rebased, "Rebased feat onto main."));
    assert!(space::ops::RebaseResult { outcome: o, message: m }.success());
}

#[test]
fn a_failed_rebase_is_told_apart_by_the_abort() {
    let mut f = RebaseFacts { branch: Some(Some("feat".to_string())), fetched: true, rebase: Some(failed("out\n", "")), aborted: None };
    assert!(matches!(rebase_next("main", &f), RebaseStep::Abort));
    f.aborted = Some(true);
    assert_eq!(rebase_done(rebase_next("main", &f)).1, "Rebase of feat onto main conflicted; aborted and restored the branch.\nResolve the conflicts manually: run 'git rebase main' in a terminal.");
    f.aborted = Some(false);
    assert_eq!(rebase_done(rebase_next("main", &f)), (RebaseOutcome::Failed, "Rebase of feat onto main failed: out".to_string()));
    f.rebase = Some(GitRun::NotStarted("gone".to_string()));
    assert_eq!(rebase_done(rebase_next("main", &f)).1, "Failed to run git rebase: gone");
}

#[test]
fn a_dash_target_is_refused_and_a_detached_head_reported() {
    let f = RebaseFacts { branch: Some(Some("feat".to_string())), fetched: false, rebase: None, aborted: None };
    assert_eq!(rebase_done(rebase_next("-x", &f)), (RebaseOutcome::Failed, "Refusing to rebase onto '-x': a target may not begin with '-'.".to_string()));
    let g = RebaseFacts { branch: Some(None), fetched: false, rebase: None, aborted: None };
    assert_eq!(rebase_done(rebase_next("main", &g)), (RebaseOutcome::DetachedHead, "Detached HEAD: no branch to rebase.".to_string()));
}

#[test]
fn push_and_commit_report_gits_words_and_exit() {
    assert_eq!(push_args("feat", true), ["push", "-u", "origin", "feat"]);
    assert_eq!(push_args("feat", false), ["push"]);
    let r = push_result(Some("feat"), &ok("", " To origin\n"));
    assert!(r.success);
    assert_eq!(r.message, "To origin");
    let r = push_result(Some("feat"), &failed("", ""));
    assert!(!r.success);
    assert_eq!(r.message, "Pushed feat.");
    let r = push_result(None, &ok("", ""));
    assert!(!r.success);
    assert_eq!(r.message, "Detached HEAD: no branch to push.");
    assert_eq!(push_result(Some("feat"), &GitRun::NotStarted("e".to_string())).message, "Failed to run git push: e");
    assert_eq!(commit_args("msg"), ["commit", "-m", "msg"]);
    let c = commit_result(&failed("nothing to commit\n", "x"));
    assert!(!c.success);
    assert_eq!(c.message, "nothing to commit");
    assert_eq!(commit_result(&ok("", "")).message, "Committed.");
    assert_eq!(commit_result(&ok("", "warn\n")).message, "warn");
    assert_eq!(commit_result(&GitRun::NotStarted("e".to_string())).message, "Failed to run git commit: e");
}
