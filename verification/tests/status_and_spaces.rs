use space::spaces::{
    find_space, list_spaces, repo_row, shows_modified, skeleton_repo, sort_repos, space_dir, status_text,
    workspace_not_found,
};
use space::status::{
    base_branch_name, branch_list, build_file_diff, collect_entries, delta_to_file_status, head_label,
    locate_delta, recent_branches, select_paths, tally_status, BranchInfo, DeltaFacts, DeltaKind, DiffLineKind,
    FileEntry, FileStatus, HunkFacts, LineFacts, PatchFacts, RawBranch, RepoStatus, StatusFlags,
};

fn flags(index_new: bool, wt_modified: bool, wt_new: bool) -> StatusFlags {
    StatusFlags {
        index_new,
        index_modified: false,
        index_deleted: false,
        index_renamed: false,
        wt_new,
        wt_modified,
        wt_deleted: false,
        wt_renamed: false,
    }
}

fn raw(name: &str, is_remote: bool, t: i64) -> RawBranch {
    RawBranch { name: Some(name.to_string()), is_remote, last_commit_time: t }
}

fn names(v: &[BranchInfo]) -> Vec<String> {
    v.iter().map(|b| b.name.clone()).collect()
}

fn delta(p: &str, kind: DeltaKind) -> DeltaFacts {
    DeltaFacts { shown_path: Some(p.to_string()), new_path: Some(p.to_string()), old_path: Some(p.to_string()), kind }
}

fn line(p: &str, origin: char) -> LineFacts {
    LineFacts { shown_path: Some(p.to_string()), origin }
}

#[test]
fn tally_counts_each_kind_of_change() {
    let r = tally_status(&[flags(true, true, false), flags(false, true, false), flags(false, false, true)]);
    assert_eq!((r.staged, r.modified, r.untracked), (1, 2, 1));
    let e = tally_status(&[]);
    assert_eq!((e.staged, e.modified, e.untracked), (0, 0, 0));
}

#[test]
fn branch_list_puts_local_first_by_name_and_marks_head() {
    let r = branch_list(
        &[
            raw("origin/main", true, 5),
            raw("zeta", false, 1),
            raw("origin/HEAD", true, 9),
            raw("alpha", false, 2),
            RawBranch { name: None, is_remote: false, last_commit_time: 3 },
        ],
        Some("zeta"),
    );
    assert_eq!(names(&r), vec!["alpha", "zeta", "origin/main"]);
    assert_eq!(r.iter().map(|b| b.is_current).collect::<Vec<_>>(), vec![false, true, false]);
    assert_eq!(r.iter().map(|b| b.is_remote).collect::<Vec<_>>(), vec![false, false, true]);
}

#[test]
fn recent_branches_are_newest_first_and_capped() {
    let all = branch_list(&[raw("a", false, 10), raw("b", false, 30), raw("c", false, 20), raw("d", false, 30)], None);
    assert_eq!(names(&recent_branches(all.clone(), 3)), vec!["b", "d", "c"]);
    assert_eq!(names(&recent_branches(all.clone(), 10)), vec!["b", "d", "c", "a"]);
    assert_eq!(names(&recent_branches(all, 0)), Vec::<String>::new());
}

#[test]
fn head_reads_as_a_branch_or_a_short_commit() {
    assert_eq!(head_label(true, Some("main"), "0123456789abcdef"), "main");
    assert_eq!(head_label(true, None, "0123456789abcdef"), "HEAD");
    assert_eq!(head_label(false, Some("main"), "0123456789abcdef"), "(01234567)");
    assert_eq!(base_branch_name(Some("dev")), "dev");
    assert_eq!(base_branch_name(None), "main");
}

#[test]
fn delta_kinds_map_to_the_statuses_shown() {
    assert_eq!(delta_to_file_status(DeltaKind::Modified), Some(FileStatus::Modified));
    assert_eq!(delta_to_file_status(DeltaKind::Untracked), Some(FileStatus::Untracked));
    assert_eq!(delta_to_file_status(DeltaKind::Copied), Some(FileStatus::Copied));
    assert_eq!(delta_to_file_status(DeltaKind::Ignored), None);
    assert_eq!(delta_to_file_status(DeltaKind::Typechange), None);
}

#[test]
fn entries_count_added_and_removed_lines_per_file() {
    let deltas = [delta("a.rs", DeltaKind::Modified), delta("b.rs", DeltaKind::Added), delta("c", DeltaKind::Ignored)];
    let lines = [line("a.rs", '+'), line("a.rs", '-'), line("a.rs", '+'), line("b.rs", '+'), line("a.rs", ' ')];
    let es = collect_entries(&deltas, &lines, true);
    let got: Vec<(String, FileStatus, bool, usize, usize)> =
        es.iter().map(|e| (e.path.clone(), e.status, e.staged, e.insertions, e.deletions)).collect();
    assert_eq!(
        got,
        vec![("a.rs".to_string(), FileStatus::Modified, true, 2, 1), ("b.rs".to_string(), FileStatus::Added, true, 1, 0)]
    );
}

#[test]
fn select_paths_takes_one_side() {
    let e = |p: &str, staged: bool| FileEntry {
        path: p.to_string(),
        status: FileStatus::Modified,
        staged,
        insertions: 0,
        deletions: 0,
    };
    let es = [e("a", true), e("b", false), e("c", true)];
    assert_eq!(select_paths(&es, true), vec!["a", "c"]);
    assert_eq!(select_paths(&es, false), vec!["b"]);
}

#[test]
fn a_diff_is_found_by_either_path_and_built_line_by_line() {
    let renamed =
        DeltaFacts { shown_path: Some("new".into()), new_path: Some("new".into()), old_path: Some("old".into()), kind: DeltaKind::Renamed };
    let deltas = [delta("x", DeltaKind::Modified), renamed.clone()];
    assert_eq!(locate_delta(&deltas, "old"), Ok(1));
    assert_eq!(locate_delta(&deltas, "x"), Ok(0));
    assert_eq!(locate_delta(&deltas, "y"), Err("file 'y' not found in diff".to_string()));

    let bin = build_file_diff("new", &renamed, &PatchFacts::Binary { size: 42 });
    assert!(bin.is_binary);
    assert_eq!(bin.old_path.as_deref(), Some("old"));
    assert_eq!(bin.lines.len(), 1);
    assert_eq!(bin.lines[0].kind, DiffLineKind::Binary);
    assert_eq!(bin.lines[0].content, "Binary file (42 bytes)");

    let hunk = HunkFacts {
        header: Some("@@ -1 +1 @@".to_string()),
        lines: vec![('+', Some("added".to_string())), ('-', None), (' ', Some("same".to_string()))],
    };
    let text = build_file_diff("x", &deltas[0], &PatchFacts::Text(vec![hunk]));
    assert!(!text.is_binary);
    assert_eq!(text.old_path, None);
    let got: Vec<(DiffLineKind, String)> = text.lines.iter().map(|l| (l.kind, l.content.clone())).collect();
    assert_eq!(
        got,
        vec![
            (DiffLineKind::HunkHeader, "@@ -1 +1 @@".to_string()),
            (DiffLineKind::Addition, "added".to_string()),
            (DiffLineKind::Deletion, "<binary line>".to_string()),
            (DiffLineKind::Context, "same".to_string()),
        ]
    );
}

#[test]
fn repo_rows_fall_back_when_git_could_not_tell() {
    let s = skeleton_repo("api".to_string(), "/w/api".to_string());
    assert_eq!((s.branch.as_str(), s.ahead, s.behind, s.status.modified), ("...", 0, 0, 0));
    let r = repo_row("api".to_string(), "/w/api".to_string(), None, None, None);
    assert_eq!(r.branch, "?");
    let st = RepoStatus { modified: 1, staged: 2, untracked: 3 };
    let r = repo_row("api".to_string(), "/w/api".to_string(), Some("dev".to_string()), Some(st), Some((4, 5)));
    assert_eq!((r.branch.as_str(), r.status.staged, r.ahead, r.behind), ("dev", 2, 4, 5));
}

#[test]
fn spaces_and_their_repos_are_listed_by_name() {
    let rows = vec![
        skeleton_repo("web".to_string(), "/w/s/web".to_string()),
        skeleton_repo("api".to_string(), "/w/s/api".to_string()),
        skeleton_repo("Zed".to_string(), "/w/s/Zed".to_string()),
    ];
    let sorted: Vec<String> = sort_repos(rows).into_iter().map(|r| r.name).collect();
    assert_eq!(sorted, vec!["Zed", "api", "web"]);

    let found = vec![("b".to_string(), "/w/b".to_string()), ("a".to_string(), "/w/a".to_string())];
    let spaces = list_spaces(found);
    assert_eq!(spaces.iter().map(|w| w.name.as_str()).collect::<Vec<_>>(), vec!["a", "b"]);
    assert_eq!(spaces[0].path, "/w/a");
    assert!(spaces.iter().all(|w| w.repos.is_empty()));
    assert_eq!(find_space(&spaces, "b"), Some(1));
    assert_eq!(find_space(&spaces, "c"), None);
}

#[test]
fn a_space_directory_needs_a_plain_name() {
    assert_eq!(space_dir("/w", "feat"), Ok("/w/feat".to_string()));
    assert_eq!(space_dir("/w", ".."), Err("invalid space name \"..\": Space name cannot be '.' or '..'".to_string()));
    assert_eq!(space_dir("/w", ""), Err("invalid space name \"\": Space name cannot be empty".to_string()));
    assert_eq!(
        space_dir("/w", "a/b"),
        Err("invalid space name \"a/b\": Space name cannot contain '/' or '\\'".to_string())
    );
    assert_eq!(workspace_not_found("x"), "workspace 'x' not found");
}

#[test]
fn status_words_and_the_modified_label() {
    assert_eq!(status_text(RepoStatus { modified: 0, staged: 0, untracked: 0 }), "clean");
    assert_eq!(status_text(RepoStatus { modified: 1, staged: 0, untracked: 12 }), "1 modified, 0 staged, 12 untracked");
    assert!(!shows_modified(RepoStatus { modified: 0, staged: 0, untracked: 5 }));
    assert!(shows_modified(RepoStatus { modified: 0, staged: 1, untracked: 0 }));
}
