use space::pull::GitRun;
use space::sync::{
    after_stop, branch_run, strictly_behind, sync_next, BranchRun, SyncStep, parse_skip_reason, Unattended, FetchOutcome, SkipReason, SyncOutcome, SLOW_FETCH_THRESHOLD, SPAWN_FAILURE_PREFIX,
    UNATTENDED_FETCH_TIMEOUT,
};

const MILLI: u64 = 1_000_000;
const SECOND: u64 = 1_000_000_000;

#[test]
fn parse_skip_reason_keeps_unrecognised_refusals_verbatim() {
    let reason = parse_skip_reason("fatal: Cannot force update the current branch.\n");
    assert_eq!(
        reason,
        SkipReason::Other("fatal: Cannot force update the current branch.".to_string())
    );
    let reason =
        parse_skip_reason("fatal: cannot force update the branch 'x' used by worktree at '/w/x'\n");
    assert_eq!(reason, SkipReason::CheckedOutAt("/w/x".to_string()));
    assert_eq!(
        parse_skip_reason(""),
        SkipReason::Other("git branch -f failed".to_string())
    );
}

#[test]
fn parse_skip_reason_recognises_both_worktree_wordings() {
    // git 2.42 and later.
    let reason = parse_skip_reason(
        "fatal: cannot force update the branch 'main' used by worktree at '/w/main'\n",
    );
    assert_eq!(reason, SkipReason::CheckedOutAt("/w/main".to_string()));
    // git 2.38 to 2.41.
    let reason =
        parse_skip_reason("fatal: cannot force update the branch 'main' checked out at '/w/main'\n");
    assert_eq!(reason, SkipReason::CheckedOutAt("/w/main".to_string()));
}

#[test]
fn slow_threshold_sits_inside_the_fetch_limit() {
    assert!(
        SLOW_FETCH_THRESHOLD < UNATTENDED_FETCH_TIMEOUT,
        "a threshold at or above the limit catches only timeouts"
    );
    assert!(
        SLOW_FETCH_THRESHOLD >= 2 * SECOND,
        "every fast refusal measured is under 2s and must still be retried"
    );
}

#[derive(Debug)]
enum PromptProbe {
    Refused,
    Unreached(String),
    Unexpected(String),
}

/// Classify a prompt probe's fetch: the refusal text with exit 128 is the
/// pass; a timeout or a transport failure without an HTTP status is a skip;
/// everything else fails.
fn prompt_probe(fetch: &FetchOutcome) -> PromptProbe {
    match fetch {
        FetchOutcome::TimedOut { after_nanos, .. } => {
            PromptProbe::Unreached(format!("timed out after {}s", after_nanos / SECOND))
        }
        FetchOutcome::Failed {
            exit_code: Some(128),
            stderr,
            ..
        } if stderr.contains("terminal prompts disabled") => PromptProbe::Refused,
        FetchOutcome::Failed { stderr, .. }
            if stderr.contains("unable to access")
                && !stderr.contains("The requested URL returned error") =>
        {
            PromptProbe::Unreached(stderr.trim_end().to_string())
        }
        other => PromptProbe::Unexpected(format!(
            "expected git's refused-prompt text under exit code 128, got {:?}",
            other
        )),
    }
}

#[test]
fn prompt_probe_refusal_text_with_exit_128_is_refused() {
    let fetch = FetchOutcome::Failed {
        exit_code: Some(128),
        stderr:
            "fatal: could not read Username for 'https://github.com': terminal prompts disabled\n"
                .to_string(),
        elapsed_nanos: 400 * MILLI,
    };
    assert!(matches!(prompt_probe(&fetch), PromptProbe::Refused));
}

#[test]
fn prompt_probe_transport_failures_are_unreached() {
    let lines = [
        "fatal: unable to access 'https://github.com/x/repo.git/': Failed to connect to github.com port 443 after 3 ms: Couldn't connect to server\n",
        "fatal: unable to access 'https://github.com/x/repo.git/': Could not resolve host: github.com\n",
        "fatal: unable to access 'https://github.com/x/repo.git/': LibreSSL SSL_connect: SSL_ERROR_SYSCALL in connection to github.com:443\n",
        "fatal: unable to access 'https://github.com/x/repo.git/': Recv failure: Connection reset by peer\n",
    ];
    for line in lines {
        let fetch = FetchOutcome::Failed {
            exit_code: Some(128),
            stderr: line.to_string(),
            elapsed_nanos: 5 * MILLI,
        };
        match prompt_probe(&fetch) {
            PromptProbe::Unreached(reason) => assert_eq!(reason, line.trim_end()),
            other => panic!("{:?} must be Unreached, got {:?}", line, other),
        }
    }
}

#[test]
fn prompt_probe_timed_out_is_unreached() {
    let fetch = FetchOutcome::TimedOut {
        after_nanos: 20 * SECOND,
        stderr: String::new(),
    };
    match prompt_probe(&fetch) {
        PromptProbe::Unreached(reason) => assert_eq!(reason, "timed out after 20s"),
        other => panic!("expected Unreached, got {:?}", other),
    }
}

#[test]
fn prompt_probe_http_status_is_unexpected() {
    let lines = [
        ("returned error: 403", "fatal: unable to access 'https://github.com/x/repo.git/': The requested URL returned error: 403\n"),
        ("not found", "fatal: repository 'https://github.com/x/repo.git/' not found\n"),
    ];
    for (needle, line) in lines {
        let fetch = FetchOutcome::Failed {
            exit_code: Some(128),
            stderr: line.to_string(),
            elapsed_nanos: 300 * MILLI,
        };
        match prompt_probe(&fetch) {
            PromptProbe::Unexpected(reason) => {
                assert!(reason.contains(needle), "{}", reason)
            }
            other => panic!("{:?} must be Unexpected, got {:?}", line, other),
        }
    }
}

#[test]
fn prompt_probe_other_shapes_are_unexpected() {
    let refusal =
        "fatal: could not read Username for 'https://github.com': terminal prompts disabled\n";
    let shapes = [
        FetchOutcome::Failed {
            exit_code: Some(1),
            stderr: refusal.to_string(),
            elapsed_nanos: 0,
        },
        FetchOutcome::Failed {
            exit_code: None,
            stderr: format!("{}: No such file or directory", SPAWN_FAILURE_PREFIX),
            elapsed_nanos: 0,
        },
        FetchOutcome::Failed {
            exit_code: None,
            stderr: String::new(),
            elapsed_nanos: 10 * MILLI,
        },
        FetchOutcome::Succeeded,
    ];
    for fetch in shapes {
        assert!(
            matches!(prompt_probe(&fetch), PromptProbe::Unexpected(_)),
            "{:?} must be Unexpected",
            fetch
        );
    }
}

#[test]
fn timed_out_is_slow_at_any_limit() {
    let timed_out = FetchOutcome::TimedOut {
        after_nanos: 200 * MILLI,
        stderr: String::new(),
    };
    assert!(timed_out.is_slow(), "a timeout is slow: {:?}", timed_out);
    assert!(
        timed_out.is_slow_with(3600 * SECOND),
        "a timeout is slow against any threshold, not only a small one"
    );
    assert!(!FetchOutcome::Succeeded.is_slow(), "a fetch that worked is never slow");
}

#[test]
fn a_failure_at_exactly_the_threshold_is_slow() {
    let threshold = 500 * MILLI;
    let at = FetchOutcome::Failed {
        exit_code: Some(128),
        stderr: String::new(),
        elapsed_nanos: threshold,
    };
    let under = FetchOutcome::Failed {
        exit_code: Some(128),
        stderr: String::new(),
        elapsed_nanos: threshold - 1,
    };
    assert!(at.is_slow_with(threshold), "a failure that took exactly the threshold is slow");
    assert!(!under.is_slow_with(threshold), "a failure a nanosecond under the threshold is not");
}

#[test]
fn a_cancelled_sync_costs_nothing_and_is_not_slow() {
    let outcome = SyncOutcome::cancelled();
    match &outcome.fetch {
        FetchOutcome::Failed { exit_code, stderr, elapsed_nanos } => {
            assert_eq!(*exit_code, None);
            assert_eq!(stderr, "sync cancelled");
            assert_eq!(*elapsed_nanos, 0, "nothing ran, so the outcome must cost nothing");
        }
        other => panic!("expected FetchOutcome::Failed, got {:?}", other),
    }
    assert!(!outcome.fetch.is_slow(), "a cancelled sync must not be skipped as slow: {:?}", outcome.fetch);
    assert!(outcome.forwarded.is_empty() && outcome.skipped.is_empty());
}

fn refused_or_skip(verdict: PromptProbe, skip: &mut dyn FnMut(String)) -> bool {
    match verdict {
        PromptProbe::Refused => true,
        PromptProbe::Unreached(reason) => {
            skip(format!("skipping: github.com was not reached: {}", reason));
            false
        }
        PromptProbe::Unexpected(reason) => panic!("{}", reason),
    }
}

fn created_then_refused_or_skip(
    verdict: PromptProbe,
    assert_created: impl FnOnce(),
    skip: &mut dyn FnMut(String),
) -> bool {
    if let PromptProbe::Unexpected(reason) = &verdict {
        panic!("{}", reason);
    }
    assert_created();
    match verdict {
        PromptProbe::Refused => true,
        PromptProbe::Unreached(reason) => {
            skip(format!(
                "skipping the refusal check (the worktree was still created from local refs): github.com was not reached: {}",
                reason
            ));
            false
        }
        PromptProbe::Unexpected(_) => unreachable!("handled above"),
    }
}

#[test]
fn refused_or_skip_passes_on_refused_and_prints_nothing() {
    let mut lines = Vec::new();
    assert!(refused_or_skip(PromptProbe::Refused, &mut |l| lines.push(l)));
    assert!(lines.is_empty(), "{:?}", lines);
}

#[test]
fn refused_or_skip_prints_the_reason_on_unreached() {
    let mut lines = Vec::new();
    let refused = refused_or_skip(
        PromptProbe::Unreached("timed out after 20s".to_string()),
        &mut |l| lines.push(l),
    );
    assert!(!refused);
    assert_eq!(lines, ["skipping: github.com was not reached: timed out after 20s"]);
}

#[test]
fn created_then_refused_or_skip_asserts_creation_then_passes_on_refused() {
    let ran = std::cell::Cell::new(false);
    let mut lines = Vec::new();
    let refused =
        created_then_refused_or_skip(PromptProbe::Refused, || ran.set(true), &mut |l| lines.push(l));
    assert!(refused);
    assert!(ran.get(), "the creation assertions must run on a pass");
    assert!(lines.is_empty(), "{:?}", lines);
}

#[test]
fn created_then_refused_or_skip_asserts_creation_before_skipping() {
    let ran = std::cell::Cell::new(false);
    let mut lines = Vec::new();
    let refused = created_then_refused_or_skip(
        PromptProbe::Unreached("fatal: unable to access 'u': Could not resolve host: h".to_string()),
        || ran.set(true),
        &mut |l| {
            assert!(ran.get(), "the skip line must come after the creation assertions");
            lines.push(l)
        },
    );
    assert!(!refused);
    assert!(ran.get(), "the creation assertions must run on a skip");
    assert_eq!(
        lines,
        ["skipping the refusal check (the worktree was still created from local refs): github.com was not reached: fatal: unable to access 'u': Could not resolve host: h"]
    );
}

#[test]
fn a_run_that_reached_its_limit_times_out_unless_it_exited_cleanly() {
    assert!(matches!(
        after_stop(Some((true, Some(0))), "e".to_string()),
        Unattended::Exited { success: true, code: Some(0), stderr } if stderr == "e"
    ));
    assert!(matches!(after_stop(Some((false, Some(1))), "e".to_string()), Unattended::TimedOut { stderr } if stderr == "e"));
    assert!(matches!(after_stop(Some((false, None)), String::new()), Unattended::TimedOut { .. }));
    assert!(matches!(after_stop(None, String::new()), Unattended::TimedOut { .. }));
}

#[test]
fn a_sync_fetches_then_forwards_each_branch_until_cancelled() {
    let pending = vec!["a".to_string(), "b".to_string()];
    assert!(matches!(sync_next(true, &None, &pending, 0), SyncStep::Cancelled));
    assert!(matches!(sync_next(false, &None, &pending, 0), SyncStep::Fetch));
    let ok = Some(FetchOutcome::Succeeded);
    assert!(matches!(sync_next(false, &ok, &pending, 0), SyncStep::FastForward(b) if b == "a"));
    assert!(matches!(sync_next(false, &ok, &pending, 1), SyncStep::FastForward(b) if b == "b"));
    assert!(matches!(sync_next(false, &ok, &pending, 2), SyncStep::Done));
    assert!(matches!(sync_next(true, &ok, &pending, 1), SyncStep::Done));
    let failed = Some(FetchOutcome::TimedOut { after_nanos: 5, stderr: String::new() });
    assert!(matches!(sync_next(false, &failed, &pending, 0), SyncStep::Done));
    assert!(strictly_behind(0, 3));
    assert!(!strictly_behind(1, 3));
    assert!(!strictly_behind(0, 0));
    assert!(matches!(
        branch_run(GitRun::Exited { success: true, stdout: String::new(), stderr: String::new() }),
        BranchRun::Moved
    ));
    assert!(matches!(
        branch_run(GitRun::Exited { success: false, stdout: String::new(), stderr: "no".to_string() }),
        BranchRun::Refused { stderr } if stderr == "no"
    ));
    assert!(matches!(branch_run(GitRun::NotStarted("e".to_string())), BranchRun::NotRun { error } if error == "e"));
}
