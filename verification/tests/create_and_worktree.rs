use space::create::{
    create_next, half_built_of, CreateStep, branch_name_verdict, common_dir_of, create_preflight, fetch_writes_under, git_command_outcome,
    placement_of, pre_create_fetch_limit, strategy_reads_origin, switch_next, tracking_prefix_of,
    worktree_add_outcome, Placement, PreCreateFetch, SwitchStep,
};
use space::pull::GitRun;
use space::worktree::{
    base_ref, local_branch_ref, refuses_because_checked_out, remote_tracking_ref,
    worktree_add_args, worktree_path, BranchStrategy, RefProbes,
};

fn refused(stderr: &str) -> GitRun {
    GitRun::Exited { success: false, stdout: String::new(), stderr: stderr.to_string() }
}

#[test]
fn preflight_refuses_a_bad_space_name_and_a_dash_branch() {
    let s = BranchStrategy::NewBranch("feat".to_string());
    assert_eq!(create_preflight("ws", &s, &[], None), Ok(None));
    assert_eq!(
        create_preflight("..", &s, &[], None),
        Err("invalid space name \"..\": Space name cannot be '.' or '..'".to_string())
    );
    let dash = BranchStrategy::ExistingBranch("origin/-M".to_string());
    assert_eq!(create_preflight("ws", &dash, &[], None), Err("'-M' is not a valid branch name".to_string()));
    let up = BranchStrategy::ExistingBranch("upstream/feat".to_string());
    assert_eq!(
        create_preflight("ws", &up, &["upstream".to_string()], Some(false)),
        Ok(Some(("upstream".to_string(), "feat".to_string())))
    );
    assert_eq!(create_preflight("ws", &up, &["upstream".to_string()], Some(true)), Ok(None));
}

#[test]
fn the_pre_create_fetch_runs_only_when_it_can_matter() {
    assert_eq!(pre_create_fetch_limit(PreCreateFetch::Skip, false, true), None);
    assert_eq!(pre_create_fetch_limit(PreCreateFetch::Run(7), false, true), Some(7));
    assert_eq!(pre_create_fetch_limit(PreCreateFetch::Run(7), true, true), None);
    assert_eq!(pre_create_fetch_limit(PreCreateFetch::Run(7), false, false), None);
    let new = BranchStrategy::NewBranch("x".to_string());
    assert!(strategy_reads_origin(&new, &None, true, false, false, true));
    let existing = BranchStrategy::ExistingBranch("x".to_string());
    assert!(!strategy_reads_origin(&existing, &None, true, false, false, true));
    assert!(strategy_reads_origin(&existing, &None, true, false, false, false));
    let origin = Some(("origin".to_string(), "x".to_string()));
    assert!(strategy_reads_origin(&existing, &origin, true, false, false, true));
    let upstream = Some(("upstream".to_string(), "x".to_string()));
    assert!(!strategy_reads_origin(&existing, &upstream, true, false, false, true));
    assert!(strategy_reads_origin(&existing, &upstream, true, false, true, true));
    assert!(!strategy_reads_origin(&BranchStrategy::DetachedHead, &None, true, false, false, true));
    assert!(strategy_reads_origin(&BranchStrategy::DetachedHead, &None, false, false, false, true));
    assert_eq!(tracking_prefix_of("upstream"), "refs/remotes/upstream/");
}

#[test]
fn an_unreadable_refspec_counts_as_writing() {
    let specs = vec![Some("+refs/heads/*:refs/remotes/origin/*".to_string())];
    assert!(!fetch_writes_under(true, &specs, "refs/heads/"));
    assert!(fetch_writes_under(false, &specs, "refs/heads/"));
    assert!(fetch_writes_under(true, &[None], "refs/heads/"));
    assert!(fetch_writes_under(true, &[Some("+refs/heads/*:refs/heads/*".to_string())], "refs/heads/"));
}

#[test]
fn a_half_built_worktree_is_refused_with_the_way_out() {
    assert_eq!(placement_of("/w/a", "/r/a", None, false, false), Placement::Attempt);
    assert_eq!(placement_of("/w/a", "/r/a", Some("/r/a/.git/worktrees/a"), false, true), Placement::Attempt);
    assert_eq!(placement_of("/w/a", "/r/a", Some("/r/a/.git/worktrees/a"), true, false), Placement::Adopted);
    assert_eq!(
        placement_of("/w/a", "/r/a", Some("/r/.git/worktrees/a"), true, true),
        Placement::HalfBuilt("\"/w/a\" holds a worktree of this repo whose `git worktree add` never finished: its admin directory \"/r/.git/worktrees/a\" is still locked from the add and holds the checkout's index.lock and no index; nothing was attempted. Remove the space and create it again, or run `git worktree remove -f -f \"/w/a\"` in \"/r/a\", then retry".to_string())
    );
    assert_eq!(common_dir_of("/r/.git/worktrees/a", "../..\n"), "/r/.git/worktrees/a/../..");
    assert_eq!(common_dir_of("/r/.git/worktrees/a", "/abs\r\n"), "/abs");
}

#[test]
fn gits_refusals_are_reported_by_their_line() {
    assert_eq!(branch_name_verdict("x", None), Ok(()));
    assert_eq!(branch_name_verdict("x", Some((true, String::new()))), Ok(()));
    assert_eq!(
        branch_name_verdict("-foo", Some((false, "fatal: '-foo' is not a valid branch name\n".to_string()))),
        Err("'-foo' is not a valid branch name".to_string())
    );
    assert_eq!(branch_name_verdict("a b", Some((false, "oops\n".to_string()))), Err("'a b' is not a valid branch name".to_string()));
    assert_eq!(branch_name_verdict("a", Some((false, "fatal:   \n".to_string()))), Err("'a' is not a valid branch name".to_string()));
    assert_eq!(
        worktree_add_outcome(&refused("Preparing worktree (new branch 'x')\nfatal: fatal: 'x' is already used by worktree at '/w/x'\n")),
        Err("fatal: 'x' is already used by worktree at '/w/x'".to_string())
    );
    assert_eq!(
        worktree_add_outcome(&refused("Preparing worktree (new branch 'x')\nfatal: 'x' is already used by worktree at '/w/x'\n")),
        Err("'x' is already used by worktree at '/w/x'".to_string())
    );
    assert_eq!(worktree_add_outcome(&refused("Preparing worktree\nHEAD is now at abc\n  odd failure \n")), Err("odd failure".to_string()));
    assert_eq!(worktree_add_outcome(&refused("")), Err("git worktree add failed".to_string()));
    assert_eq!(worktree_add_outcome(&GitRun::NotStarted("e".to_string())), Err("failed to spawn git".to_string()));
    assert_eq!(git_command_outcome(&refused("hint: x\nerror: pathspec 'y' did not match\n")), Err("pathspec 'y' did not match".to_string()));
    assert_eq!(git_command_outcome(&refused("\n  something  \n")), Err("something".to_string()));
    assert_eq!(git_command_outcome(&refused("")), Err("git switch failed".to_string()));
    assert!(refuses_because_checked_out("'x' is already used by worktree at '/w/x'"));
    assert!(!refuses_because_checked_out("git worktree add failed"));
}

fn run_args(s: SwitchStep) -> Vec<String> {
    match s {
        SwitchStep::Run(a) => a,
        SwitchStep::Verify(r) => panic!("expected a run, got a check of {}", r),
    }
}

fn verify_ref(s: SwitchStep) -> String {
    match s {
        SwitchStep::Verify(r) => r,
        SwitchStep::Run(a) => panic!("expected a check, got {:?}", a),
    }
}

#[test]
fn a_switch_prefers_the_local_branch_then_tracks_the_remote() {
    assert_eq!(run_args(switch_next("feat", true, None, None)), ["switch", "-c", "feat"]);
    assert_eq!(verify_ref(switch_next("feat", false, None, None)), "refs/heads/feat");
    assert_eq!(run_args(switch_next("feat", false, Some(true), None)), ["switch", "--", "feat"]);
    assert_eq!(verify_ref(switch_next("feat", false, Some(false), None)), "origin/feat");
    assert_eq!(run_args(switch_next("feat", false, Some(false), Some(true))), ["switch", "-c", "feat", "origin/feat"]);
    assert_eq!(run_args(switch_next("origin/feat", false, Some(false), Some(true))), ["switch", "-c", "feat", "origin/feat"]);
    assert_eq!(verify_ref(switch_next("origin/feat", false, None, None)), "refs/heads/feat");
    assert_eq!(run_args(switch_next("feat", false, Some(false), Some(false))), ["switch", "--", "feat"]);
}

#[test]
fn the_add_puts_the_separator_before_the_path() {
    let split = None;
    let probes = |l, r, o| RefProbes { local_branch: l, remote_branch: r, origin_base: o };
    let new = BranchStrategy::NewBranch("feat".to_string());
    assert_eq!(worktree_add_args("/w/a", "main", &new, &split, probes(true, false, false)), ["worktree", "add", "--", "/w/a", "feat"]);
    assert_eq!(
        worktree_add_args("/w/a", "main", &new, &split, probes(false, true, false)),
        ["worktree", "add", "--track", "-b", "feat", "--", "/w/a", "refs/remotes/origin/feat"]
    );
    assert_eq!(
        worktree_add_args("/w/a", "main", &new, &split, probes(false, false, true)),
        ["worktree", "add", "-b", "feat", "--", "/w/a", "refs/remotes/origin/main"]
    );
    assert_eq!(
        worktree_add_args("/w/a", "main", &new, &split, probes(false, false, false)),
        ["worktree", "add", "-b", "feat", "--", "/w/a", "refs/heads/main"]
    );
    assert_eq!(
        worktree_add_args("/w/a", "HEAD", &BranchStrategy::DetachedHead, &split, probes(false, false, false)),
        ["worktree", "add", "--detach", "--", "/w/a", "HEAD"]
    );
    let existing = BranchStrategy::ExistingBranch("upstream/feat".to_string());
    let upstream = Some(("upstream".to_string(), "feat".to_string()));
    assert_eq!(
        worktree_add_args("/w/a", "main", &existing, &upstream, probes(false, false, false)),
        ["worktree", "add", "--track", "-b", "feat", "--", "/w/a", "refs/remotes/upstream/feat"]
    );
    assert_eq!(worktree_path("/ws", "s", "/r/api"), "/ws/s/api");
    assert_eq!(remote_tracking_ref("origin", "x"), "refs/remotes/origin/x");
    assert_eq!(local_branch_ref("x"), "refs/heads/x");
    assert_eq!(base_ref("HEAD"), "HEAD");
    assert_eq!(base_ref("main"), "refs/heads/main");
}

#[test]
fn a_creation_asks_fetches_then_adds_unless_cancelled() {
    let run = PreCreateFetch::Run(9);
    assert!(matches!(create_next(run, false, None, false), CreateStep::AskOrigin));
    assert!(matches!(create_next(run, false, Some(true), false), CreateStep::Fetch(9)));
    assert!(matches!(create_next(run, false, Some(false), false), CreateStep::Add));
    assert!(matches!(create_next(run, false, Some(true), true), CreateStep::Add));
    assert!(matches!(create_next(PreCreateFetch::Skip, false, None, false), CreateStep::Add));
    for (reads, done) in [(None, false), (Some(true), false), (Some(true), true)] {
        assert!(matches!(
            create_next(run, true, reads, done),
            CreateStep::Cancelled(m) if m == "worktree creation cancelled"
        ));
    }
}

#[test]
fn half_built_means_locked_with_an_index_lock_and_no_index() {
    assert!(half_built_of(true, true, false));
    assert!(!half_built_of(false, true, false));
    assert!(!half_built_of(true, false, false));
    assert!(!half_built_of(true, true, true));
}
