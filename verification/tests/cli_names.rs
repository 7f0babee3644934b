use space::cli::{add_screen, create_screen, resolve_repo_names, Picker};

fn toggled(picker: &Picker) -> Vec<String> {
    let mut v: Vec<String> = picker
        .toggled
        .iter()
        .map(|&i| picker.all_items[i].full_path.clone())
        .collect();
    v.sort();
    v
}

fn cache(paths: &[&str]) -> Vec<String> {
    paths.iter().map(|p| p.to_string()).collect()
}

fn names(names: &[&str]) -> Vec<String> {
    names.iter().map(|s| s.to_string()).collect()
}

/// The `space create` arm hands the resolved paths to the screen.
#[test]
fn create_screen_toggles_the_named_repos() {
    let st = create_screen(
        cache(&["/r/api", "/r/web", "/r/other"]),
        &names(&["web", "api"]),
    )
    .unwrap();
    assert_eq!(toggled(&st.picker), ["/r/api", "/r/web"]);
    assert_eq!(st.picker.query, "");
    assert_eq!(st.picker.all_items.len(), 3);
}

/// The `space add` arm resolves, refuses a held repo, then drops the held
/// repos from the picker and toggles the rest.
#[test]
fn add_screen_toggles_the_named_repos_and_leaves_held_ones_out() {
    let held: Vec<String> = vec!["other".to_string()];
    let repos = cache(&["/r/api", "/r/web", "/r/other"]);
    let st = add_screen("ws", &held, &repos, &names(&["web"])).unwrap();
    assert_eq!(toggled(&st.picker), ["/r/web"]);
    let listed: Vec<&str> = st
        .picker
        .all_items
        .iter()
        .map(|i| i.name.as_str())
        .collect();
    assert_eq!(listed, ["api", "web"]);
    let err = match add_screen("ws", &held, &repos, &names(&["other"])) {
        Ok(_) => panic!("a held repo must be refused"),
        Err(e) => e,
    };
    assert_eq!(err.to_string(), "repo 'other' is already in workspace 'ws'");
}

/// A scope, a path or an empty argument is refused as not a name, without
/// the rescan hint, which could not help.
#[test]
fn resolve_repo_names_refuses_a_path_or_empty_argument_as_not_a_name() {
    let repos = cache(&["/r/api"]);
    for arg in ["acme/", "./api", "/r/api", "", ".", ".."] {
        let err = resolve_repo_names(&repos, &names(&[arg])).unwrap_err();
        assert!(
            err.to_string()
                .starts_with(&format!("'{arg}' is not a repo name;")),
            "{arg:?}: {err}"
        );
        assert!(!err.to_string().contains("rescan"), "{arg:?}: {err}");
    }
}

#[test]
fn resolve_repo_names_is_exact_not_fuzzy() {
    let repos = cache(&["/r/api-service", "/r/api"]);
    let got = resolve_repo_names(&repos, &names(&["api"])).unwrap();
    assert_eq!(got, cache(&["/r/api"]));
    let err = resolve_repo_names(&repos, &names(&["ap"])).unwrap_err();
    assert!(
        err.to_string()
            .starts_with("no repo named 'ap' in the repo list"),
        "{err}"
    );
}

#[test]
fn resolve_repo_names_keeps_argument_order_and_drops_repeats() {
    let repos = cache(&["/r/api", "/r/web", "/r/other"]);
    let got = resolve_repo_names(&repos, &names(&["web", "api", "web"])).unwrap();
    assert_eq!(got, cache(&["/r/web", "/r/api"]));
}

#[test]
fn resolve_repo_names_with_no_names_selects_nothing() {
    let repos = cache(&["/r/api"]);
    assert!(resolve_repo_names(&repos, &[]).unwrap().is_empty());
}

#[test]
fn resolve_repo_names_refuses_a_case_only_mismatch_and_names_the_exact_one() {
    let repos = cache(&["/r/api"]);
    let err = resolve_repo_names(&repos, &names(&["API"])).unwrap_err();
    assert_eq!(
        err.to_string(),
        "no repo named 'API' in the repo list; names are case-sensitive, did you mean 'api'?"
    );
}

/// Overlapping roots (`~/p` and `~/p/work`) cache a repo once per root.
#[test]
fn resolve_repo_names_treats_a_path_cached_twice_as_one_repo() {
    let repos = cache(&["/p/work/api", "/p/web", "/p/work/api"]);
    let got = resolve_repo_names(&repos, &names(&["api"])).unwrap();
    assert_eq!(got, cache(&["/p/work/api"]));
}

#[test]
fn resolve_repo_names_refuses_an_ambiguous_name_with_every_path() {
    let repos = cache(&["/a/api", "/b/api", "/r/web"]);
    let err = resolve_repo_names(&repos, &names(&["web", "api"])).unwrap_err();
    assert_eq!(
        err.to_string(),
        "'api' names 2 repos:\n  /a/api\n  /b/api\npick it in the picker instead"
    );
}

#[test]
fn resolve_repo_names_stops_at_the_first_failing_name() {
    let repos = cache(&["/r/api"]);
    let err = resolve_repo_names(&repos, &names(&["nope", "API"])).unwrap_err();
    assert!(err.to_string().starts_with("no repo named 'nope'"), "{err}");
}
