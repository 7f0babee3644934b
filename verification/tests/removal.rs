use space::pull::GitRun;
use space::removal::{
    gitdir_verdict, pair_reason, quoted, read_gitfile, removal_report, shared_counts,
    settle_space, shared_groups, shared_reasons, space_entry_of, unregister_args, unregister_outcome, AdminFacts,
    EntryFacts, PathProbe, RecordedAt, RemovalTally, SpaceEntry,
};
use space::paths::common_dir_in_gits_shape;

fn s(v: &[&str]) -> Vec<String> {
    v.iter().map(|x| x.to_string()).collect()
}

#[test]
fn quoted_prints_each_name_as_debug() {
    assert_eq!(quoted(&s(&["a", "b\nc"])), "\"a\", \"b\\nc\"");
    assert_eq!(quoted(&[]), "");
}

#[test]
fn the_report_leads_with_the_kept_and_the_first_reason() {
    let kept = vec![
        ("api".to_string(), "it is locked\nsecond line".to_string()),
        ("web".to_string(), "other".to_string()),
        ("db".to_string(), "third".to_string()),
    ];
    let r = removal_report("ws", &s(&["x"]), &s(&["o"]), &kept, (0, 0));
    assert_eq!(
        r,
        "could not remove \"api\", \"web\" and 1 more from space 'ws'; first reason: it is locked\n  3 of 5 repos in the space were kept\n  \"api\": it is locked\n      second line\n  \"web\": other\n  \"db\": third\n  removed: \"x\"\n  no source repository left to unregister, so they go with the space once nothing is kept: \"o\""
    );
    let one = vec![("api".to_string(), "r".to_string())];
    assert!(removal_report("ws", &[], &[], &one, (2, 1)).starts_with("2 share one worktree; could not remove \"api\" from space 'ws'; first reason: r"));
    assert!(removal_report("ws", &[], &[], &one, (4, 2)).starts_with("4 share 2 worktrees; "));
}

#[test]
fn pair_reasons_name_the_original_and_the_copies() {
    let names = s(&["a", "b"]);
    assert_eq!(
        pair_reason(0, Some(0), &names, &RecordedAt::Here),
        "a copy of it in this space (\"b\") shares its admin directory, so neither is removed\nremoving it would leave the copy with nothing registered, which git could no longer read; keep what you need from the copy, delete the copy by hand, then remove the space again"
    );
    assert_eq!(
        pair_reason(1, Some(0), &names, &RecordedAt::Unknown),
        "it is a copy of \"a\" in this space, sharing its admin directory, and git does not know it\nkeep what you need from it, delete it by hand, then remove the space again"
    );
    assert_eq!(
        pair_reason(0, None, &names, &RecordedAt::Unknown),
        "it and \"b\" share one admin directory, and which of them git knows cannot be read, so none of them is removed\nkeep what you need, delete all but the real worktree by hand, then remove the space again"
    );
    assert!(pair_reason(0, None, &names, &RecordedAt::Gone("/old".to_string())).contains("git recorded it at \"/old\": run"));
    let three = s(&["a", "b", "c"]);
    assert!(pair_reason(0, Some(0), &three, &RecordedAt::Here).starts_with("copies of it in this space (\"b\", \"c\") share its admin directory, so none of them is removed"));
}

#[test]
fn unregistering_passes_the_target_after_the_separator() {
    assert_eq!(unregister_args("/w/a", false, false), ["worktree", "remove", "--", "/w/a"]);
    assert_eq!(unregister_args("/w/a", true, false), ["worktree", "remove", "--force", "--", "/w/a"]);
    assert_eq!(unregister_args("/w/a", true, true), ["worktree", "remove", "--force", "--force", "--", "/w/a"]);
    assert_eq!(unregister_args("/w/a", false, true), ["worktree", "remove", "--", "/w/a"]);
}

#[test]
fn a_refusal_is_worded_by_what_the_admin_directory_says() {
    let refused = GitRun::Exited { success: false, stdout: String::new(), stderr: "fatal: is locked\nuse -f -f\n".to_string() };
    assert_eq!(
        unregister_outcome(&refused, true, false, &RecordedAt::Unknown, "/w/a"),
        Err("fatal: is locked\nspace does not override a lock: run `git worktree unlock \"/w/a\"`, then remove the space again".to_string())
    );
    assert_eq!(
        unregister_outcome(&refused, false, false, &RecordedAt::Gone("/x".to_string()), "/w/a"),
        Err("fatal: is locked\nits source repo still points at where it used to be: run `git worktree repair \"/w/a\"`, then remove the space again".to_string())
    );
    assert_eq!(
        unregister_outcome(&refused, false, false, &RecordedAt::Here, "/w/a"),
        Err("fatal: is locked\nuse -f -f".to_string())
    );
    let silent = GitRun::Exited { success: false, stdout: String::new(), stderr: String::new() };
    assert_eq!(unregister_outcome(&silent, false, false, &RecordedAt::Here, "/w/a"), Err("git reported no error output".to_string()));
    let done = GitRun::Exited { success: true, stdout: String::new(), stderr: String::new() };
    assert_eq!(unregister_outcome(&done, true, false, &RecordedAt::Here, "/w/a"), Ok(()));
    assert_eq!(unregister_outcome(&GitRun::NotStarted("e".to_string()), false, false, &RecordedAt::Here, "/w/a"), Err("could not run git: e".to_string()));
}

#[test]
fn a_gitfile_is_read_as_git_reads_it() {
    let r = read_gitfile("/w/a", "gitdir: /src/.git/worktrees/a\n").unwrap();
    assert_eq!(r.path, "/src/.git/worktrees/a");
    assert!(!r.relative);
    assert!(r.near_misses.is_empty());
    let r = read_gitfile("/w/a", "gitdir: ../x \r\n").unwrap();
    assert_eq!(r.path, "/w/a/../x ");
    assert!(r.relative);
    assert_eq!(r.near_misses, ["/w/a/../x", "/w/a/../x"]);
    assert_eq!(read_gitfile("/w/a", "gitdir:/x").err().unwrap(), "its .git file does not name a gitdir");
    let r = read_gitfile("/w/a", "gitdir: /x\n# c").unwrap();
    assert_eq!(r.path, "/x\n# c");
    assert_eq!(r.near_misses, ["/x", "/x"]);
}

#[test]
fn a_near_miss_that_exists_keeps_the_directory() {
    let reading = || read_gitfile("/w/a", "gitdir: /x \n").unwrap();
    assert_eq!(gitdir_verdict(reading(), true, true), Ok(("/x ".to_string(), false)));
    assert_eq!(gitdir_verdict(reading(), false, false), Ok(("/x ".to_string(), false)));
    assert_eq!(
        gitdir_verdict(reading(), false, true),
        Err("its .git file names a live admin directory in a form git does not read (extra lines, or blanks around the path)".to_string())
    );
}

#[test]
fn shared_admin_directories_form_groups() {
    let keys = vec![Some("/a".to_string()), None, Some("/b".to_string()), Some("/a".to_string()), Some("/b".to_string()), Some("/c".to_string())];
    let groups = shared_groups(&keys);
    assert_eq!(groups, vec![vec![0, 3], vec![2, 4]]);
    assert_eq!(shared_counts(&groups), (4, 2));
    let reasons = shared_reasons(&s(&["x", "y"]), &[RecordedAt::Unknown, RecordedAt::Here]);
    assert!(reasons[0].starts_with("it is a copy of \"y\""));
    assert!(reasons[1].starts_with("a copy of it in this space (\"x\")"));
}

#[test]
fn a_tally_keeps_what_git_cannot_vouch_for() {
    let mut t = RemovalTally::new();
    t.settle("a".to_string(), SpaceEntry::Worktree { admin: "/s/.git/worktrees/a".to_string() }, true, Some(Ok(())));
    t.settle("o".to_string(), SpaceEntry::Orphan, true, None);
    t.settle("p".to_string(), SpaceEntry::Plain, true, None);
    assert_eq!(t.verdict("ws", (0, 0)), Ok(()));
    t.settle("r".to_string(), SpaceEntry::Repository, true, None);
    t.settle("u".to_string(), SpaceEntry::Unreadable("it is odd".to_string()), true, None);
    t.settle("q".to_string(), SpaceEntry::Orphan, false, None);
    assert_eq!(t.removed, s(&["a"]));
    assert_eq!(t.orphaned, s(&["o"]));
    assert_eq!(t.kept.len(), 3);
    assert_eq!(t.kept[0].1, "holds a git repository of its own, which space did not create; move it aside or delete it by hand, then remove the space again");
    assert_eq!(t.kept[1].1, "it is odd, so what this directory is cannot be told; look at it, then move it aside or delete it by hand, and remove the space again");
    assert_eq!(t.kept[2].1, "its source repository is gone, so git cannot say whether the worktree holds uncommitted work; remove the space with force, or delete the directory by hand");
    let report = t.verdict("ws", (0, 0)).unwrap_err();
    assert!(report.starts_with("could not remove \"r\", \"u\" and 1 more from space 'ws'; first reason: holds a git repository"));
    assert!(report.contains("\n  3 of 5 repos in the space were kept"));
}

fn admin_facts(admin: &str, relative: bool, admin_probe: PathProbe, commondir_probe: PathProbe) -> AdminFacts {
    AdminFacts {
        admin: admin.to_string(),
        relative,
        admin_probe,
        commondir_probe,
        common_probe: PathProbe::Dir,
        common_is_repo: true,
    }
}

#[test]
fn git_shaped_admin_paths_name_their_repository() {
    assert_eq!(common_dir_in_gits_shape("/r/.git/worktrees/x"), Some("/r/.git".to_string()));
    assert_eq!(common_dir_in_gits_shape("/r//.git/./worktrees/x/"), Some("/r/.git".to_string()));
    assert_eq!(common_dir_in_gits_shape("/worktrees/x"), Some("/".to_string()));
    assert_eq!(common_dir_in_gits_shape("worktrees/x"), Some(String::new()));
    assert_eq!(common_dir_in_gits_shape("/r/../worktrees/x"), None);
    assert_eq!(common_dir_in_gits_shape("./r/worktrees/x"), None);
    assert_eq!(common_dir_in_gits_shape("/r/.git/modules/x"), None);
    assert_eq!(common_dir_in_gits_shape("/r/work\ntrees/x"), None);
    assert_eq!(common_dir_in_gits_shape("/x"), None);
    assert_eq!(common_dir_in_gits_shape(""), None);
}

#[test]
fn space_entries_follow_the_gitfile_to_its_admin_directory() {
    assert!(matches!(space_entry_of("/w/a", EntryFacts::NoGitfile { repo_like: false }), SpaceEntry::Plain));
    assert!(matches!(space_entry_of("/w/a", EntryFacts::NoGitfile { repo_like: true }), SpaceEntry::Repository));
    assert!(matches!(space_entry_of("/w/a", EntryFacts::Unread("why".to_string())), SpaceEntry::Unreadable(m) if m == "why"));
    let adm = "/r/.git/worktrees/a";
    assert!(matches!(
        space_entry_of("/w/a", EntryFacts::Read(admin_facts(adm, false, PathProbe::Dir, PathProbe::File))),
        SpaceEntry::Worktree { admin } if admin == adm
    ));
    assert!(matches!(
        space_entry_of("/w/a", EntryFacts::Read(admin_facts(adm, false, PathProbe::Dir, PathProbe::Missing))),
        SpaceEntry::Repository
    ));
    assert!(matches!(
        space_entry_of("/w/a", EntryFacts::Read(admin_facts(adm, false, PathProbe::Dir, PathProbe::Dir))),
        SpaceEntry::Unreadable(m) if m == "its .git file names \"/r/.git/worktrees/a\", whose commondir is not a file"
    ));
    assert!(matches!(
        space_entry_of("/w/a", EntryFacts::Read(admin_facts(adm, false, PathProbe::File, PathProbe::Missing))),
        SpaceEntry::Unreadable(m) if m == "its .git file names \"/r/.git/worktrees/a\", which is not a directory"
    ));
    assert!(matches!(
        space_entry_of("/w/a", EntryFacts::Read(admin_facts(adm, false, PathProbe::Failed("denied".into()), PathProbe::Missing))),
        SpaceEntry::Unreadable(m) if m == "its .git file names \"/r/.git/worktrees/a\", which cannot be read (denied)"
    ));
}

#[test]
fn only_a_provably_gone_repository_makes_an_orphan() {
    let adm = "/r/.git/worktrees/a";
    let gone = |common_probe: PathProbe, common_is_repo: bool| AdminFacts {
        common_probe,
        common_is_repo,
        ..admin_facts(adm, false, PathProbe::Missing, PathProbe::Missing)
    };
    assert!(matches!(space_entry_of("/w/a", EntryFacts::Read(gone(PathProbe::Missing, false))), SpaceEntry::Orphan));
    assert!(matches!(
        space_entry_of("/w/a", EntryFacts::Read(gone(PathProbe::Dir, true))),
        SpaceEntry::Unregistered { admin } if admin == adm
    ));
    assert!(matches!(
        space_entry_of("/w/a", EntryFacts::Read(gone(PathProbe::Dir, false))),
        SpaceEntry::Unreadable(m) if m == "its .git file names a worktree of a directory that is not a git repository\nthe path is \"/r/.git/worktrees/a\""
    ));
    assert!(matches!(
        space_entry_of("/w/a", EntryFacts::Read(gone(PathProbe::Failed("denied".into()), false))),
        SpaceEntry::Unreadable(m) if m == "its .git file names a worktree of a directory that cannot be read (denied)\nthe path is \"/r/.git/worktrees/a\""
    ));
    let odd = AdminFacts { admin: "/r/../x".to_string(), ..gone(PathProbe::Missing, false) };
    assert!(matches!(
        space_entry_of("/w/a", EntryFacts::Read(odd)),
        SpaceEntry::Unreadable(m) if m == "its .git file names a path that does not exist, in a form git does not write for a worktree\nthe path is \"/r/../x\""
    ));
    let relative = admin_facts("/w/a/../x/.git/worktrees/a", true, PathProbe::Missing, PathProbe::Missing);
    assert!(matches!(
        space_entry_of("/w/a", EntryFacts::Read(relative)),
        SpaceEntry::Unresolved(m) if m.starts_with("its .git file names a relative gitdir that no longer leads anywhere")
            && m.contains("\nit points at \"/w/a/../x/.git/worktrees/a\", which does not exist;")
            && m.contains("run `git worktree repair \"/w/a\"` from the source repo")
    ));
}

#[test]
fn a_space_goes_only_when_nothing_in_it_is_kept() {
    let wt = |a: &str| SpaceEntry::Worktree { admin: a.to_string() };
    let all_gone = vec![
        ("api".to_string(), wt("/r/.git/worktrees/api"), Some(Ok(()))),
        ("notes".to_string(), SpaceEntry::Plain, None),
        ("old".to_string(), SpaceEntry::Orphan, None),
    ];
    assert_eq!(settle_space("ws", all_gone, true, (0, 0)), Ok(()));
    let orphan_unforced = vec![("old".to_string(), SpaceEntry::Orphan, None)];
    let e = settle_space("ws", orphan_unforced, false, (0, 0)).unwrap_err();
    assert!(e.starts_with("could not remove \"old\" from space 'ws'"), "{e}");
    let refused = vec![
        ("api".to_string(), wt("/r/.git/worktrees/api"), Some(Ok(()))),
        ("web".to_string(), wt("/r/.git/worktrees/web"), Some(Err("locked".to_string()))),
    ];
    let e = settle_space("ws", refused, true, (0, 0)).unwrap_err();
    assert!(e.starts_with("could not remove \"web\" from space 'ws'; first reason: locked"), "{e}");
    assert!(e.contains("removed: \"api\""), "{e}");
}
