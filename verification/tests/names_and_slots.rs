use space::names::{checked_space_name, require_plain_component, validate_space_name};
use space::worktree::{branch_slot_name, refspec_writes_under, BranchStrategy};

#[test]
fn validate_space_name_accepts_ordinary_names_and_rejects_each_clause() {
    for ok in ["ws", "my space", "a\u{a0}b", "\u{e9}", "v1..v2", "a.b", "feature-x", "x-"] {
        assert!(validate_space_name(ok).is_ok(), "{:?} is a valid space name", ok);
    }
    let rejected = [
        ("", "Space name cannot be empty"),
        (" x", "Space name cannot start or end with whitespace"),
        ("x ", "Space name cannot start or end with whitespace"),
        ("a/b", "Space name cannot contain '/' or '\\'"),
        ("/etc/x", "Space name cannot contain '/' or '\\'"),
        ("a\\b", "Space name cannot contain '/' or '\\'"),
        ("-x", "Space name cannot start with '-' or '.'"),
        (".", "Space name cannot start with '-' or '.'"),
        ("..", "Space name cannot start with '-' or '.'"),
        (".hidden", "Space name cannot start with '-' or '.'"),
        ("a\nb", "Space name cannot contain control or formatting characters"),
        ("a\0b", "Space name cannot contain control or formatting characters"),
        ("a\x7fb", "Space name cannot contain control or formatting characters"),
        ("a\u{85}b", "Space name cannot contain control or formatting characters"),
        ("a\u{2028}b", "Space name cannot contain control or formatting characters"),
        ("safe\u{202e}elif.exe", "Space name cannot contain control or formatting characters"),
        ("a\u{200b}b", "Space name cannot contain control or formatting characters"),
        ("a\u{2066}b", "Space name cannot contain control or formatting characters"),
        ("a\u{200d}b", "Space name cannot contain control or formatting characters"),
        ("a\u{e007f}b", "Space name cannot contain control or formatting characters"),
    ];
    for (name, rule) in rejected {
        let err = validate_space_name(name).expect_err(&format!("{:?} must be rejected", name));
        assert_eq!(err.to_string(), rule, "wrong rule for {:?}", name);
    }
}

#[test]
fn require_plain_component_rejects_dot_dot_and_separators() {
    for ok in ["ws", "-scratch", ".old", "a b", "x."] {
        assert!(require_plain_component(ok).is_ok(), "{:?} is one plain component", ok);
    }
    let rejected = [
        ("", "Space name cannot be empty"),
        (".", "Space name cannot be '.' or '..'"),
        ("..", "Space name cannot be '.' or '..'"),
        ("a/b", "Space name cannot contain '/' or '\\'"),
        ("/", "Space name cannot contain '/' or '\\'"),
        ("a\\b", "Space name cannot contain '/' or '\\'"),
        ("a\tb", "Space name cannot contain control or formatting characters"),
        ("a\0b", "Space name cannot contain control or formatting characters"),
        ("a\u{9b}b", "Space name cannot contain control or formatting characters"),
        ("a\u{2029}b", "Space name cannot contain control or formatting characters"),
        (".\u{200b}.", "Space name cannot contain control or formatting characters"),
        ("a\u{200e}b", "Space name cannot contain control or formatting characters"),
    ];
    for (name, rule) in rejected {
        let err = require_plain_component(name).expect_err(&format!("{:?} must be rejected", name));
        assert_eq!(err.to_string(), rule, "wrong rule for {:?}", name);
    }
    let err = checked_space_name("..").unwrap_err().to_string();
    assert_eq!(
        err, "invalid space name \"..\": Space name cannot be '.' or '..'",
        "the core wrapper names the offending name"
    );
}

#[test]
fn branch_slot_name_is_the_stripped_local_name() {
    let existing = |name: &str| BranchStrategy::ExistingBranch(name.to_string());
    let remotes = |names: &[&str]| names.iter().map(|n| n.to_string()).collect::<Vec<_>>();
    let some = |s: &str| Some(s.to_string());
    assert_eq!(
        branch_slot_name(&BranchStrategy::NewBranch("-x".to_string()), &[], None),
        some("-x")
    );
    assert_eq!(
        branch_slot_name(&existing("origin/-M"), &[], None),
        some("-M"),
        "origin/-M passes git's check as a whole, but -M is what reaches -b"
    );
    assert_eq!(
        branch_slot_name(&existing("origin/-M"), &remotes(&["upstream"]), None),
        some("-M"),
        "origin counts whether or not it is configured"
    );
    assert_eq!(branch_slot_name(&existing("feature/x"), &[], None), some("feature/x"));
    assert_eq!(branch_slot_name(&BranchStrategy::DetachedHead, &[], None), None);
    assert_eq!(
        branch_slot_name(&existing("origin/origin/-x"), &[], None),
        some("origin/-x"),
        "one prefix is stripped, as add_worktree strips one, so the slot \
         name does not begin with a dash and needs no refusal"
    );
    assert_eq!(
        branch_slot_name(&existing("upstream/-M"), &[], None),
        some("upstream/-M"),
        "a prefix that names no remote is part of the branch name"
    );
    assert_eq!(
        branch_slot_name(&existing("upstream/-M"), &remotes(&["upstream"]), None),
        some("-M"),
        "a configured remote's prefix is stripped like origin's"
    );
    assert_eq!(
        branch_slot_name(&existing("a/b/-M"), &remotes(&["a", "a/b"]), None),
        some("-M"),
        "the longest configured remote wins"
    );
    assert_eq!(
        branch_slot_name(&existing("a/b/-M"), &remotes(&["a"]), None),
        some("b/-M"),
        "and a shorter one when the longer is not configured"
    );
    assert_eq!(
        branch_slot_name(&existing("upstream/"), &remotes(&["upstream"]), None),
        some("upstream/"),
        "an empty local part is not a split"
    );
}

#[test]
fn refspec_classifier_table() {
    let cases = [
        ("+refs/heads/*:refs/remotes/origin/*", false),
        ("refs/heads/feat", false),
        ("refs/heads/feat:", false),
        ("^refs/heads/main", false),
        ("+refs/heads/*:refs/remotes/*", false),
        ("+refs/tags/*:refs/tags/*", false),
        ("+refs/heads/*:refs/heads/*", true),
        ("+refs/heads/feat:refs/heads/feat", true),
        ("+refs/heads/feat:feat", true),
        ("+refs/*:refs/*", true),
        ("+refs/heads/*:refs/h*", true),
        ("+refs/heads/*:*", true),
        ("  +refs/heads/*:refs/heads/*  ", true),
    ];
    for (spec, expected) in cases {
        assert_eq!(refspec_writes_under(spec, "refs/heads/"), expected, "refspec {:?}", spec);
    }
    let upstream_cases = [
        ("+refs/heads/*:refs/remotes/upstream/*", true),
        ("+refs/heads/main:refs/remotes/upstream/feat", true),
        ("+refs/heads/*:refs/remotes/*", true),
        ("+refs/heads/*:refs/remotes/up*", true),
        ("+refs/*:refs/*", true),
        ("+refs/heads/*:refs/remotes/upstream/rel-*", true),
        ("+refs/heads/*:refs/remotes/origin/*", false),
        ("+refs/heads/*:refs/heads/*", false),
        ("+refs/heads/feat:feat", false),
        ("+refs/heads/*:*", false),
        ("+refs/heads/*:refs/remotes/upstreamer/*", false),
        ("refs/heads/feat", false),
    ];
    for (spec, expected) in upstream_cases {
        assert_eq!(
            refspec_writes_under(spec, "refs/remotes/upstream/"),
            expected,
            "refspec {:?} under refs/remotes/upstream/",
            spec
        );
    }
}
