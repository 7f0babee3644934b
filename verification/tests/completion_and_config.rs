use space::completion::{repo_lines, replace_all, workspace_line, zsh_escape};
use space::config::{parse_u32_or, parse_u64_or, roots_from_text, SpaceConfig};

fn strings(v: &[&str]) -> Vec<String> {
    v.iter().map(|s| s.to_string()).collect()
}

#[test]
fn zsh_escape_guards_colons_and_backslashes() {
    assert_eq!(zsh_escape("plain"), "plain");
    assert_eq!(zsh_escape("a:b"), "a\\:b");
    assert_eq!(zsh_escape("a\\b"), "a\\\\b");
    assert_eq!(zsh_escape("\\:"), "\\\\\\:");
    assert_eq!(zsh_escape(""), "");
}

#[test]
fn replace_all_matches_str_replace() {
    for (s, from, to) in [
        ("/home/u/p/x", "/home/u", "~"),
        ("aaa", "aa", "b"),
        ("abc", "", "~"),
        ("", "", "~"),
        ("", "x", "~"),
        ("xyx", "x", ""),
        ("no match", "zzz", "~"),
    ] {
        assert_eq!(replace_all(s, from, to), s.replace(from, to), "{s:?} {from:?} {to:?}");
    }
    assert_eq!(replace_all("/home/u/p/x", "/home/u", "~"), "~/p/x");
    assert_eq!(replace_all("ab", "", "~"), "~a~b~");
}

#[test]
fn workspace_line_names_the_first_branch_and_the_count() {
    assert_eq!(workspace_line("feat", &strings(&["main", "dev"])), "feat:main · 2 repos");
    assert_eq!(workspace_line("one", &strings(&["topic"])), "one:topic · 1 repo");
    assert_eq!(workspace_line("a:b", &[]), "a\\:b:empty · 0 repos");
}

#[test]
fn repo_lines_leave_out_repos_already_in_the_space() {
    let repos = strings(&["/home/u/p/api", "/home/u/p/web", "/srv/x:y"]);
    assert_eq!(
        repo_lines(&repos, &[], "/home/u"),
        strings(&["api:~/p/api", "web:~/p/web", "x\\:y:/srv/x:y"])
    );
    assert_eq!(repo_lines(&repos, &strings(&["web"]), "/home/u"), strings(&["api:~/p/api", "x\\:y:/srv/x:y"]));
    assert_eq!(repo_lines(&strings(&["/r/a"]), &[], ""), strings(&["a:~/~r~/~a~"]));
}

#[test]
fn default_config_lives_under_the_home_directory() {
    let c = SpaceConfig::default_with_home(Some("/home/u".to_string()));
    assert_eq!(c.repos.roots, strings(&["/home/u/projects"]));
    assert_eq!(c.repos.max_depth, 3);
    assert_eq!(c.repos.cache_age_secs, 3600);
    assert_eq!(c.workspaces.dir, "/home/u/workspaces");
    let d = SpaceConfig::default_with_home(None);
    assert_eq!(d.repos.roots, strings(&["./projects"]));
    assert_eq!(d.workspaces.dir, "./workspaces");
}

#[test]
fn config_dir_is_dot_config_space_under_home() {
    assert_eq!(SpaceConfig::config_dir_from(Some("/h".to_string())), "/h/.config/space");
    assert_eq!(SpaceConfig::config_dir_from(Some("/h/".to_string())), "/h/.config/space");
    assert_eq!(SpaceConfig::config_dir_from(None), ".config/space");
    let dir = SpaceConfig::config_dir();
    assert!(dir.ends_with(".config/space"));
    assert_eq!(SpaceConfig::config_path(), format!("{dir}/config.toml"));
    assert_eq!(SpaceConfig::cache_path(), format!("{dir}/repos.cache"));
}

#[test]
fn roots_are_split_at_commas_and_trimmed() {
    assert_eq!(roots_from_text("~/a, /b ,c"), strings(&["~/a", "/b", "c"]));
    assert_eq!(roots_from_text(""), strings(&[""]));
    assert_eq!(roots_from_text("a,,b"), strings(&["a", "", "b"]));
}

#[test]
fn numbers_that_do_not_parse_keep_the_old_value() {
    assert_eq!(parse_u64_or("120", 7), 120);
    assert_eq!(parse_u64_or(" 120 ", 7), 7);
    assert_eq!(parse_u64_or("-1", 7), 7);
    assert_eq!(parse_u64_or("18446744073709551615", 7), u64::MAX);
    assert_eq!(parse_u64_or("18446744073709551616", 7), 7);
    assert_eq!(parse_u32_or("5", 3), 5);
    assert_eq!(parse_u32_or("4294967296", 3), 3);
    assert_eq!(parse_u32_or("", 3), 3);
    assert_eq!(parse_u32_or("+4", 3), 4);
}

#[test]
fn pressing_enter_keeps_each_setting() {
    let roots = strings(&["~/projects", "/srv/code", "rel/dir"]);
    assert_eq!(roots_from_text(&roots.join(",")), roots);
    assert_eq!(roots_from_text(&Vec::<String>::new().join(",")), strings(&[""]));
    for n in [0u64, 7, 3600, 1_000_000, u64::MAX] {
        assert_eq!(parse_u64_or(&n.to_string(), 42), n);
    }
    for n in [0u32, 3, u32::MAX] {
        assert_eq!(parse_u32_or(&n.to_string(), 42), n);
    }
}
