use space::mcp::{build_strategy, repo_info, resolve_repos};
use space::repos::{cache_entries, cache_is_fresh, cache_text, drop_nested, fuzzy_match};
use space::worktree::BranchStrategy;

fn strings(v: &[&str]) -> Vec<String> {
    v.iter().map(|s| s.to_string()).collect()
}

#[test]
fn nested_repos_are_dropped_by_component_not_by_text() {
    assert_eq!(drop_nested(&strings(&["/a", "/a/sub", "/c"])), strings(&["/a", "/c"]));
    assert_eq!(drop_nested(&strings(&["/a", "/ab"])), strings(&["/a", "/ab"]));
    assert_eq!(drop_nested(&strings(&["/a/sub", "/a"])), strings(&["/a"]));
    assert_eq!(drop_nested(&strings(&["/a", "/a"])), strings(&["/a", "/a"]));
    assert_eq!(drop_nested(&Vec::new()), Vec::<String>::new());
}

#[test]
fn the_cache_is_one_path_per_line() {
    let repos = strings(&["/p/a", "/p/b"]);
    assert_eq!(cache_text(&repos), "/p/a\n/p/b");
    assert_eq!(cache_entries(&cache_text(&repos)), repos);
    assert_eq!(cache_entries("/p/a\n\n/p/b\n"), repos);
    assert_eq!(cache_entries("/p/a\r\n/p/b"), repos);
    assert_eq!(cache_entries(""), Vec::<String>::new());
    assert_eq!(cache_text(&[]), "");
}

#[test]
fn a_cache_is_fresh_up_to_its_age_limit() {
    assert!(cache_is_fresh(Some(0), 3600));
    assert!(cache_is_fresh(Some(3600), 3600));
    assert!(!cache_is_fresh(Some(3601), 3600));
    assert!(!cache_is_fresh(None, u64::MAX));
}

#[test]
fn fuzzy_match_keeps_matches_best_first() {
    let repos = strings(&["/p/s_p_a_c_e", "/p/zzz", "/p/space"]);
    assert_eq!(fuzzy_match("", &repos), repos);
    let found = fuzzy_match("space", &repos);
    assert_eq!(found, strings(&["/p/space", "/p/s_p_a_c_e"]));
    assert_eq!(fuzzy_match("qqq", &repos), Vec::<String>::new());
}

#[test]
fn resolve_repos_matches_names_without_case() {
    let cache = strings(&["/p/Api", "/p/web", "/q/web"]);
    assert_eq!(resolve_repos(&strings(&["api"]), &cache), Ok(strings(&["/p/Api"])));
    assert_eq!(resolve_repos(&[], &cache), Ok(vec![]));
    assert_eq!(
        resolve_repos(&strings(&["api", "nope"]), &cache),
        Err("repo 'nope' not found in cache. Run list_repos with refresh=true to rescan.".to_string())
    );
    assert_eq!(
        resolve_repos(&strings(&["WEB"]), &cache),
        Err("repo 'WEB' is ambiguous — matched 2 repos: [\"/p/web\", \"/q/web\"]".to_string())
    );
}

#[test]
fn build_strategy_reads_the_three_words() {
    assert!(matches!(build_strategy("new", None, "ws"), Ok(BranchStrategy::NewBranch(b)) if b == "ws"));
    assert!(matches!(build_strategy("new", Some("b"), "ws"), Ok(BranchStrategy::NewBranch(b)) if b == "b"));
    assert!(matches!(build_strategy("existing", Some("b"), "ws"), Ok(BranchStrategy::ExistingBranch(b)) if b == "b"));
    assert!(matches!(
        build_strategy("existing", None, "ws"),
        Err(e) if e == "branch name is required when strategy is 'existing'"
    ));
    assert!(matches!(build_strategy("detached", Some("b"), "ws"), Ok(BranchStrategy::DetachedHead)));
    assert!(matches!(
        build_strategy("New", None, "ws"),
        Err(e) if e == "unknown strategy 'New'. Use 'new', 'existing', or 'detached'."
    ));
}

#[test]
fn repo_info_names_a_repo_by_its_last_component() {
    assert_eq!(repo_info("/p/api"), ("api".to_string(), "/p/api".to_string()));
    assert_eq!(repo_info("/p/api/"), ("api".to_string(), "/p/api/".to_string()));
    assert_eq!(repo_info("/"), (String::new(), "/".to_string()));
}

#[test]
fn a_cache_reads_back_what_was_written() {
    let repos = strings(&["/p/a", "/p/b c", "/p/\u{e9}", "/p/last\r"]);
    assert_eq!(cache_entries(&cache_text(&repos)), repos);
    let dropped = strings(&["/p/a\r", "/p/b"]);
    assert_eq!(cache_entries(&cache_text(&dropped)), strings(&["/p/a", "/p/b"]));
}
