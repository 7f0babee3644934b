//! Removing a space: what each directory in it is, which are handed to git
//! and which are kept, and the report a kept space gives. The caller reads
//! the disk and runs git; this decides and words.
use crate::pull::GitRun;
use crate::shown::{debug_path, debug_path_str, debug_quoted, debug_str};
use crate::paths::{common_dir_in_gits_shape, gits_common_dir, join, path_join};
use crate::text::{
    before_newline, chars_of, dec, first_piece, join_lines, join_strings, join_with, lines,
    lines_of, lines_view, or_else, push_decimal, push_str, slice_range, starts, starts_with,
    string_of, strings_view, trim, trim_end_of, trim_or, trimmed, trimmed_end_of,
};
use vstd::prelude::*;

verus! {

/// Where the source repo's record of a worktree says it lives, compared
/// with where the directory is.
#[derive(Debug, Clone)]
pub enum RecordedAt {
    /// The record names this directory.
    Here,
    /// The record cannot be read or resolved.
    Unknown,
    /// The record names a place that is not there at all (the path).
    Gone(String),
    /// The record names another directory that exists (its path).
    Elsewhere(String),
}

/// `names` joined with `, `, each printed as `{:?}`.
pub open spec fn quoted_spec(names: Seq<Seq<char>>) -> Seq<char> {
    join_with(names.map_values(|n: Seq<char>| debug_str(n)), ", "@)
}

/// Each name printed as `{:?}`, joined with `, `.
pub fn quoted(names: &[String]) -> (r: String)
    ensures
        r@ == quoted_spec(strings_view(names@)),
{
    let mut shown: Vec<String> = Vec::new();
    let mut i: usize = 0;
    while i < names.len()
        invariant
            0 <= i <= names.len(),
            strings_view(shown@) =~= strings_view(names@).subrange(0, i as int).map_values(
                |n: Seq<char>| debug_str(n),
            ),
        decreases names.len() - i,
    {
        let q = debug_quoted(names[i].as_str());
        let ghost old_s = strings_view(shown@);
        let ghost nv = strings_view(names@);
        shown.push(q);
        proof {
            assert(strings_view(shown@) =~= old_s.push(q@));
            assert(nv.subrange(0, i + 1).map_values(|n: Seq<char>| debug_str(n)) =~= nv.subrange(
                0,
                i as int,
            ).map_values(|n: Seq<char>| debug_str(n)).push(debug_str(nv[i as int])));
        }
        i = i + 1;
    }
    assert(strings_view(names@).subrange(0, i as int) =~= strings_view(names@));
    join_strings(&shown, ", ")
}

/// The members of a group other than member `me`.
pub open spec fn others_of(names: Seq<Seq<char>>, me: int) -> Seq<Seq<char>> {
    if 0 <= me < names.len() {
        names.remove(me)
    } else {
        names
    }
}

/// What member `me` of a group of directories sharing one admin directory
/// is told. `original` is the member the admin directory's record names, if
/// any is; `recorded` is where that record points as seen from `me`.
pub open spec fn pair_reason_spec(
    me: int,
    original: Option<usize>,
    names: Seq<Seq<char>>,
    recorded: RecordedAt,
) -> Seq<char> {
    let others = others_of(names, me);
    let listed = quoted_spec(others);
    let one = others.len() == 1;
    match original {
        Some(o) => if o == me {
            let copies = if one { "a copy of it"@ } else { "copies of it"@ };
            let share = if one { "shares"@ } else { "share"@ };
            let none = if one { "neither"@ } else { "none of them"@ };
            let them = if one { "the copy"@ } else { "the copies"@ };
            copies + " in this space ("@ + listed + ") "@ + share + " its admin directory, so "@
                + none + " is removed\nremoving it would leave "@ + them
                + " with nothing registered, which git could no longer read; keep what you need from "@
                + them + ", delete "@ + them + " by hand, then remove the space again"@
        } else {
            "it is a copy of "@ + debug_str(names[o as int])
                + " in this space, sharing its admin directory, and git does not know it\nkeep what you need from it, delete it by hand, then remove the space again"@
        },
        None => match recorded {
            RecordedAt::Gone(was) => "it and "@ + listed
                + " share one admin directory whose worktree is no longer where git recorded it, so none of them is removed\ngit recorded it at "@
                + debug_path_str(was@)
                + ": run `git worktree repair <path>` from the source repo for the one that is the real worktree, keep what you need from the others, delete them by hand, then remove the space again"@,
            RecordedAt::Elsewhere(there) => "it and "@ + listed
                + " are copies of one worktree outside this space and share its admin directory, so none of them is removed\nthe worktree git knows is at "@
                + debug_path_str(there@)
                + "; keep what you need from these copies, delete them by hand, then remove the space again"@,
            _ => "it and "@ + listed
                + " share one admin directory, and which of them git knows cannot be read, so none of them is removed\nkeep what you need, delete all but the real worktree by hand, then remove the space again"@,
        },
    }
}

/// The names other than the one at `me`.
fn others_vec(names: &[String], me: usize) -> (r: Vec<String>)
    ensures
        strings_view(r@) == others_of(strings_view(names@), me as int),
{
    let mut r: Vec<String> = Vec::new();
    let mut i: usize = 0;
    while i < names.len()
        invariant
            0 <= i <= names.len(),
            strings_view(r@) =~= (if me < i {
                strings_view(names@).subrange(0, i as int).remove(me as int)
            } else {
                strings_view(names@).subrange(0, i as int)
            }),
        decreases names.len() - i,
    {
        let ghost nv = strings_view(names@);
        if i != me {
            r.push(names[i].clone());
        }
        proof {
            if me < i {
                assert(nv.subrange(0, i + 1).remove(me as int) =~= nv.subrange(0, i as int).remove(
                    me as int,
                ).push(nv[i as int]));
            } else if me == i {
                assert(nv.subrange(0, i + 1).remove(me as int) =~= nv.subrange(0, i as int));
            } else {
                assert(nv.subrange(0, i + 1) =~= nv.subrange(0, i as int).push(nv[i as int]));
            }
        }
        i = i + 1;
    }
    assert(strings_view(names@).subrange(0, i as int) =~= strings_view(names@));
    r
}

/// What member `me` of a group sharing one admin directory is told.
pub fn pair_reason(me: usize, original: Option<usize>, names: &[String], recorded: &RecordedAt) -> (r:
    String)
    requires
        original is Some && original.unwrap() != me ==> original.unwrap() < names.len(),
    ensures
        r@ == pair_reason_spec(me as int, original, strings_view(names@), *recorded),
{
    let others = others_vec(names, me);
    let listed = quoted(&others);
    let one = others.len() == 1;
    match original {
        Some(o) if o == me => {
            let copies = if one { "a copy of it" } else { "copies of it" };
            let share = if one { "shares" } else { "share" };
            let none = if one { "neither" } else { "none of them" };
            let them = if one { "the copy" } else { "the copies" };
            let mut m = String::from_str(copies);
            push_str(&mut m, " in this space (");
            push_str(&mut m, listed.as_str());
            push_str(&mut m, ") ");
            push_str(&mut m, share);
            push_str(&mut m, " its admin directory, so ");
            push_str(&mut m, none);
            push_str(&mut m, " is removed\nremoving it would leave ");
            push_str(&mut m, them);
            push_str(&mut m, " with nothing registered, which git could no longer read; keep what you need from ");
            push_str(&mut m, them);
            push_str(&mut m, ", delete ");
            push_str(&mut m, them);
            push_str(&mut m, " by hand, then remove the space again");
            assert(m@ =~= copies@ + " in this space ("@ + listed@ + ") "@ + share@
                + " its admin directory, so "@ + none@ + " is removed\nremoving it would leave "@
                + them@
                + " with nothing registered, which git could no longer read; keep what you need from "@
                + them@ + ", delete "@ + them@ + " by hand, then remove the space again"@);
            m
        },
        Some(o) => {
            let q = debug_quoted(names[o].as_str());
            let mut m = String::from_str("it is a copy of ");
            push_str(&mut m, q.as_str());
            push_str(&mut m, " in this space, sharing its admin directory, and git does not know it\nkeep what you need from it, delete it by hand, then remove the space again");
            m
        },
        None => match recorded {
            RecordedAt::Gone(was) => {
                let p = debug_path(was.as_str());
                let mut m = String::from_str("it and ");
                push_str(&mut m, listed.as_str());
                push_str(&mut m, " share one admin directory whose worktree is no longer where git recorded it, so none of them is removed\ngit recorded it at ");
                push_str(&mut m, p.as_str());
                push_str(&mut m, ": run `git worktree repair <path>` from the source repo for the one that is the real worktree, keep what you need from the others, delete them by hand, then remove the space again");
                assert(m@ =~= "it and "@ + listed@
                    + " share one admin directory whose worktree is no longer where git recorded it, so none of them is removed\ngit recorded it at "@
                    + p@
                    + ": run `git worktree repair <path>` from the source repo for the one that is the real worktree, keep what you need from the others, delete them by hand, then remove the space again"@);
                m
            },
            RecordedAt::Elsewhere(there) => {
                let p = debug_path(there.as_str());
                let mut m = String::from_str("it and ");
                push_str(&mut m, listed.as_str());
                push_str(&mut m, " are copies of one worktree outside this space and share its admin directory, so none of them is removed\nthe worktree git knows is at ");
                push_str(&mut m, p.as_str());
                push_str(&mut m, "; keep what you need from these copies, delete them by hand, then remove the space again");
                assert(m@ =~= "it and "@ + listed@
                    + " are copies of one worktree outside this space and share its admin directory, so none of them is removed\nthe worktree git knows is at "@
                    + p@
                    + "; keep what you need from these copies, delete them by hand, then remove the space again"@);
                m
            },
            _ => {
                let mut m = String::from_str("it and ");
                push_str(&mut m, listed.as_str());
                push_str(&mut m, " share one admin directory, and which of them git knows cannot be read, so none of them is removed\nkeep what you need, delete all but the real worktree by hand, then remove the space again");
                m
            },
        },
    }
}

/// The arguments of `git worktree remove` for `target`: `--force` when
/// forced, twice for a worktree git never finished building.
pub open spec fn unregister_args_spec(target: Seq<char>, force: bool, half_built: bool) -> Seq<
    Seq<char>,
> {
    seq!["worktree"@, "remove"@] + (if force {
        seq!["--force"@]
    } else {
        seq![]
    }) + (if force && half_built {
        seq!["--force"@]
    } else {
        seq![]
    }) + seq!["--"@, target]
}

/// The git arguments that hand the worktree at `target` back to its repo.
pub fn unregister_args(target: &str, force: bool, half_built: bool) -> (r: Vec<String>)
    ensures
        strings_view(r@) == unregister_args_spec(target@, force, half_built),
{
    let mut v: Vec<String> = Vec::new();
    v.push(String::from_str("worktree"));
    v.push(String::from_str("remove"));
    if force {
        v.push(String::from_str("--force"));
    }
    if force && half_built {
        v.push(String::from_str("--force"));
    }
    v.push(String::from_str("--"));
    v.push(String::from_str(target));
    assert(strings_view(v@) =~= unregister_args_spec(target@, force, half_built));
    v
}

/// The first line of `s`, or `s` when it has none.
pub open spec fn first_line_or_all(s: Seq<char>) -> Seq<char> {
    if lines(s).len() > 0 {
        lines(s)[0]
    } else {
        s
    }
}

fn first_line_of(s: &str) -> (r: String)
    ensures
        r@ == first_line_or_all(s@),
{
    let v = chars_of(s);
    let ls = lines_of(&v);
    if ls.len() > 0 {
        assert(ls@.map_values(|l: Vec<char>| l@)[0] == ls@[0]@);
        string_of(ls[0].as_slice())
    } else {
        String::from_str(s)
    }
}

/// Why git refused to unregister the worktree at `dir`: git's first line
/// and the way out when the worktree is locked (and not being overridden) or
/// was moved, a copy's explanation when its record names another existing
/// directory, and git's whole reason otherwise.
pub open spec fn refusal_reason(
    stderr: Seq<char>,
    locked: bool,
    overriding: bool,
    recorded: RecordedAt,
    dir: Seq<char>,
) -> Seq<char> {
    let reason = or_else(trim(stderr), "git reported no error output"@);
    let first = first_line_or_all(reason);
    if locked && !overriding {
        first + "\nspace does not override a lock: run `git worktree unlock "@ + debug_path_str(dir)
            + "`, then remove the space again"@
    } else {
        match recorded {
            RecordedAt::Gone(_) => first
                + "\nits source repo still points at where it used to be: run `git worktree repair "@
                + debug_path_str(dir) + "`, then remove the space again"@,
            RecordedAt::Elsewhere(there) =>
                "it is a copy of a worktree git still knows, and this is not\nthat worktree is at "@
                + debug_path_str(there@)
                + "; keep what you need from this copy, then delete it by hand and remove the space again (removing the space again as it is keeps this copy, also once that worktree is gone, while its source repo is there)\n"@
                + first,
            _ => reason,
        }
    }
}

/// What unregistering the worktree at `dir` comes to: `Ok` when git removed
/// it, else the reason it is kept. `locked` is whether its admin directory
/// holds a `locked` file, `overriding` whether the removal passed the
/// second `--force`, and `recorded` where its record points.
pub open spec fn unregister_spec(
    run: GitRun,
    locked: bool,
    overriding: bool,
    recorded: RecordedAt,
    dir: Seq<char>,
) -> Result<(), Seq<char>> {
    match run {
        GitRun::Exited { success, stderr, .. } => if success {
            Ok(())
        } else {
            Err(refusal_reason(stderr@, locked, overriding, recorded, dir))
        },
        GitRun::NotStarted(e) => Err("could not run git: "@ + e@),
    }
}

pub open spec fn unit_or_text(r: Result<(), String>) -> Result<(), Seq<char>> {
    match r {
        Ok(()) => Ok(()),
        Err(e) => Err(e@),
    }
}

/// The outcome of `git worktree remove` on the worktree at `dir`.
pub fn unregister_outcome(
    run: &GitRun,
    locked: bool,
    overriding: bool,
    recorded: &RecordedAt,
    dir: &str,
) -> (r: Result<(), String>)
    ensures
        unit_or_text(r) == unregister_spec(*run, locked, overriding, *recorded, dir@),
{
    match run {
        GitRun::Exited { success, stderr, .. } => {
            if *success {
                return Ok(());
            }
            let reason = trim_or(stderr.as_str(), "git reported no error output");
            let first = first_line_of(reason.as_str());
            if locked && !overriding {
                let p = debug_path(dir);
                let mut m = first;
                push_str(&mut m, "\nspace does not override a lock: run `git worktree unlock ");
                push_str(&mut m, p.as_str());
                push_str(&mut m, "`, then remove the space again");
                return Err(m);
            }
            match recorded {
                RecordedAt::Gone(_) => {
                    let p = debug_path(dir);
                    let mut m = first;
                    push_str(&mut m, "\nits source repo still points at where it used to be: run `git worktree repair ");
                    push_str(&mut m, p.as_str());
                    push_str(&mut m, "`, then remove the space again");
                    Err(m)
                },
                RecordedAt::Elsewhere(there) => {
                    let p = debug_path(there.as_str());
                    let mut m = String::from_str("it is a copy of a worktree git still knows, and this is not\nthat worktree is at ");
                    push_str(&mut m, p.as_str());
                    push_str(&mut m, "; keep what you need from this copy, then delete it by hand and remove the space again (removing the space again as it is keeps this copy, also once that worktree is gone, while its source repo is there)\n");
                    push_str(&mut m, first.as_str());
                    assert(m@ =~= "it is a copy of a worktree git still knows, and this is not\nthat worktree is at "@
                        + p@
                        + "; keep what you need from this copy, then delete it by hand and remove the space again (removing the space again as it is keeps this copy, also once that worktree is gone, while its source repo is there)\n"@
                        + first@);
                    Err(m)
                },
                _ => Err(reason),
            }
        },
        GitRun::NotStarted(e) => {
            let mut m = String::from_str("could not run git: ");
            push_str(&mut m, e.as_str());
            Err(m)
        },
    }
}

/// The text of a list of (repo, reason) pairs.
pub open spec fn pairs_view(k: Seq<(String, String)>) -> Seq<(Seq<char>, Seq<char>)> {
    k.map_values(|p: (String, String)| (p.0@, p.1@))
}

/// One indented line per kept repo: its name as `{:?}`, then its reason
/// with every further line of it indented deeper.
pub open spec fn kept_lines(k: Seq<(Seq<char>, Seq<char>)>) -> Seq<char>
    decreases k.len(),
{
    if k.len() == 0 {
        seq![]
    } else {
        kept_lines(k.drop_last()) + "\n  "@ + debug_str(k.last().0) + ": "@ + join_with(
            lines(k.last().1),
            "\n      "@,
        )
    }
}

/// Up to two names joined, then a count of the rest.
pub open spec fn listed_spec(names: Seq<Seq<char>>) -> Seq<char> {
    if names.len() <= 2 {
        join_with(names, ", "@)
    } else {
        join_with(names.take(2), ", "@) + " and "@ + dec((names.len() - 2) as nat) + " more"@
    }
}

/// The lead of a report that kept `shared` directories sharing admin
/// directories in `groups` groups.
pub open spec fn pairs_lead(shared: nat, groups: nat) -> Seq<char> {
    if shared == 0 {
        seq![]
    } else if groups == 1 {
        dec(shared) + " share one worktree; "@
    } else {
        dec(shared) + " share "@ + dec(groups) + " worktrees; "@
    }
}

/// The error a kept space reports. Its first line stands alone as a
/// summary: the kept directories, the space, and the first line of the
/// first reason. Under it: the count, every reason in full, what was
/// removed, and the orphans still waiting to go with the space.
pub open spec fn report_spec(
    name: Seq<char>,
    removed: Seq<Seq<char>>,
    orphaned: Seq<Seq<char>>,
    kept: Seq<(Seq<char>, Seq<char>)>,
    shared: nat,
    groups: nat,
) -> Seq<char> {
    let total = removed.len() + orphaned.len() + kept.len();
    let names = kept.map_values(|p: (Seq<char>, Seq<char>)| debug_str(p.0));
    let first_reason = if kept.len() > 0 && lines(kept[0].1).len() > 0 {
        lines(kept[0].1)[0]
    } else {
        seq![]
    };
    pairs_lead(shared, groups) + "could not remove "@ + listed_spec(names) + " from space '"@ + name
        + "'; first reason: "@ + first_reason + "\n  "@ + dec(kept.len()) + " of "@ + dec(total)
        + " repos in the space were kept"@ + kept_lines(kept) + (if removed.len() > 0 {
        "\n  removed: "@ + quoted_spec(removed)
    } else {
        seq![]
    }) + (if orphaned.len() > 0 {
        "\n  no source repository left to unregister, so they go with the space once nothing is kept: "@
            + quoted_spec(orphaned)
    } else {
        seq![]
    })
}

fn kept_names(kept: &[(String, String)]) -> (r: Vec<String>)
    ensures
        strings_view(r@) == pairs_view(kept@).map_values(
            |p: (Seq<char>, Seq<char>)| debug_str(p.0),
        ),
{
    let mut r: Vec<String> = Vec::new();
    let mut i: usize = 0;
    while i < kept.len()
        invariant
            0 <= i <= kept.len(),
            strings_view(r@) =~= pairs_view(kept@).subrange(0, i as int).map_values(
                |p: (Seq<char>, Seq<char>)| debug_str(p.0),
            ),
        decreases kept.len() - i,
    {
        let q = debug_quoted(kept[i].0.as_str());
        let ghost old_r = strings_view(r@);
        let ghost kv = pairs_view(kept@);
        r.push(q);
        proof {
            assert(strings_view(r@) =~= old_r.push(q@));
            assert(kv.subrange(0, i + 1).map_values(|p: (Seq<char>, Seq<char>)| debug_str(p.0))
                =~= kv.subrange(0, i as int).map_values(
                |p: (Seq<char>, Seq<char>)| debug_str(p.0),
            ).push(debug_str(kv[i as int].0)));
        }
        i = i + 1;
    }
    assert(pairs_view(kept@).subrange(0, i as int) =~= pairs_view(kept@));
    r
}

fn listed_of(names: &Vec<String>) -> (r: String)
    ensures
        r@ == listed_spec(strings_view(names@)),
{
    if names.len() <= 2 {
        join_strings(names.as_slice(), ", ")
    } else {
        let mut two: Vec<String> = Vec::new();
        two.push(names[0].clone());
        two.push(names[1].clone());
        assert(strings_view(two@) =~= strings_view(names@).take(2));
        let mut m = join_strings(two.as_slice(), ", ");
        push_str(&mut m, " and ");
        push_decimal(&mut m, (names.len() - 2) as u64);
        push_str(&mut m, " more");
        m
    }
}

fn push_kept_lines(out: &mut String, kept: &[(String, String)])
    ensures
        final(out)@ == old(out)@ + kept_lines(pairs_view(kept@)),
{
    let mut i: usize = 0;
    let ghost start = out@;
    assert(pairs_view(kept@).subrange(0, 0) =~= Seq::<(Seq<char>, Seq<char>)>::empty());
    while i < kept.len()
        invariant
            0 <= i <= kept.len(),
            out@ == start + kept_lines(pairs_view(kept@).subrange(0, i as int)),
        decreases kept.len() - i,
    {
        let ghost kv = pairs_view(kept@);
        let q = debug_quoted(kept[i].0.as_str());
        let v = chars_of(kept[i].1.as_str());
        let ls = lines_of(&v);
        let body = join_lines(&ls, "\n      ");
        push_str(out, "\n  ");
        push_str(out, q.as_str());
        push_str(out, ": ");
        push_str(out, body.as_str());
        proof {
            assert(kv.subrange(0, i + 1).drop_last() =~= kv.subrange(0, i as int));
            assert(kv.subrange(0, i + 1).last() == kv[i as int]);
            assert(lines_view(ls@) == ls@.map_values(|l: Vec<char>| l@));
        }
        i = i + 1;
    }
    assert(pairs_view(kept@).subrange(0, i as int) =~= pairs_view(kept@));
}

/// The error a kept space reports.
pub fn removal_report(
    name: &str,
    removed: &[String],
    orphaned: &[String],
    kept: &[(String, String)],
    counts: (usize, usize),
) -> (r: String)
    requires
        removed.len() + orphaned.len() + kept.len() <= u64::MAX,
    ensures
        r@ == report_spec(
            name@,
            strings_view(removed@),
            strings_view(orphaned@),
            pairs_view(kept@),
            counts.0 as nat,
            counts.1 as nat,
        ),
{
    let (shared, groups) = counts;
    let total: u64 = removed.len() as u64 + orphaned.len() as u64 + kept.len() as u64;
    let names = kept_names(kept);
    let first_reason = if kept.len() > 0 {
        let v = chars_of(kept[0].1.as_str());
        let ls = lines_of(&v);
        if ls.len() > 0 {
            assert(ls@.map_values(|l: Vec<char>| l@)[0] == ls@[0]@);
            string_of(ls[0].as_slice())
        } else {
            String::new()
        }
    } else {
        String::new()
    };
    assert(kept.len() > 0 ==> pairs_view(kept@)[0].1 == kept@[0].1@);
    let listed = listed_of(&names);
    let mut report = String::new();
    if shared > 0 {
        push_decimal(&mut report, shared as u64);
        if groups == 1 {
            push_str(&mut report, " share one worktree; ");
        } else {
            push_str(&mut report, " share ");
            push_decimal(&mut report, groups as u64);
            push_str(&mut report, " worktrees; ");
        }
    }
    assert(report@ == pairs_lead(shared as nat, groups as nat));
    push_str(&mut report, "could not remove ");
    push_str(&mut report, listed.as_str());
    push_str(&mut report, " from space '");
    push_str(&mut report, name);
    push_str(&mut report, "'; first reason: ");
    push_str(&mut report, first_reason.as_str());
    push_str(&mut report, "\n  ");
    push_decimal(&mut report, kept.len() as u64);
    push_str(&mut report, " of ");
    push_decimal(&mut report, total);
    push_str(&mut report, " repos in the space were kept");
    push_kept_lines(&mut report, kept);
    let ghost head = report@;
    if removed.len() > 0 {
        let q = quoted(removed);
        push_str(&mut report, "\n  removed: ");
        push_str(&mut report, q.as_str());
    }
    let ghost mid = report@;
    if orphaned.len() > 0 {
        let q = quoted(orphaned);
        push_str(&mut report, "\n  no source repository left to unregister, so they go with the space once nothing is kept: ");
        push_str(&mut report, q.as_str());
    }
    assert(report@ =~= report_spec(
        name@,
        strings_view(removed@),
        strings_view(orphaned@),
        pairs_view(kept@),
        shared as nat,
        groups as nat,
    ));
    report
}

/// What a directory inside a space is, as far as removing it goes.
#[derive(Debug, Clone)]
pub enum SpaceEntry {
    /// A linked worktree whose admin directory is still there.
    Worktree { admin: String },
    /// A `.git` file whose target has gone, and whose source repo has gone
    /// with it.
    Orphan,
    /// A `.git` file whose target has gone while its source repo is still
    /// there.
    Unregistered { admin: String },
    /// A repository in its own right rather than a worktree.
    Repository,
    /// Something claims to be a repository and cannot be read; why.
    Unreadable(String),
    /// A worktree that names the same admin directory as another directory in
    /// the space; what it is told.
    Shared { reason: String },
    /// A relative gitdir that does not resolve; what to do about it.
    Unresolved(String),
    /// Ordinary content: no repository here.
    Plain,
}

/// What becomes of one directory of a space being removed.
pub enum Disposition {
    /// git unregistered it.
    Removed,
    /// Nothing is left to unregister it from; it goes with the space.
    Orphaned,
    /// It is kept, for this reason.
    Kept(Seq<char>),
    /// Ordinary content, which goes with the space and is not counted.
    Dropped,
}

pub open spec fn orphan_kept_reason() -> Seq<char> {
    "its source repository is gone, so git cannot say whether the worktree holds uncommitted work; remove the space with force, or delete the directory by hand"@
}

pub open spec fn repository_kept_reason() -> Seq<char> {
    "holds a git repository of its own, which space did not create; move it aside or delete it by hand, then remove the space again"@
}

pub open spec fn unregistered_kept_reason(admin: Seq<char>) -> Seq<char> {
    "git has no record of it any more, though its source repo is still there, so what it holds cannot be told\nits .git file names "@
        + debug_path_str(admin)
        + ", which does not exist; a copy of a worktree looks like this once the original is removed (a space duplicated with `cp -R`, for instance), and so does a worktree whose record was pruned or whose source repo was cloned again; keep what you need from it, delete it by hand, then remove the space again"@
}

pub open spec fn unreadable_kept_reason(why: Seq<char>) -> Seq<char> {
    why
        + ", so what this directory is cannot be told; look at it, then move it aside or delete it by hand, and remove the space again"@
}

/// What becomes of a directory of this kind. An orphan goes only when the
/// removal is forced; a worktree goes when git unregistered it
/// (`unregistered`, the outcome of `git worktree remove`); everything that
/// holds a repository git cannot account for is kept.
pub open spec fn disposition(kind: SpaceEntry, force: bool, unregistered: Option<Result<(), String>>) -> Disposition {
    match kind {
        SpaceEntry::Shared { reason } => Disposition::Kept(reason@),
        SpaceEntry::Plain => Disposition::Dropped,
        SpaceEntry::Orphan => if force {
            Disposition::Orphaned
        } else {
            Disposition::Kept(orphan_kept_reason())
        },
        SpaceEntry::Repository => Disposition::Kept(repository_kept_reason()),
        SpaceEntry::Unresolved(r) => Disposition::Kept(r@),
        SpaceEntry::Unregistered { admin } => Disposition::Kept(unregistered_kept_reason(admin@)),
        SpaceEntry::Unreadable(why) => Disposition::Kept(unreadable_kept_reason(why@)),
        SpaceEntry::Worktree { .. } => match unregistered {
            Some(Ok(())) => Disposition::Removed,
            Some(Err(e)) => Disposition::Kept(e@),
            None => Disposition::Dropped,
        },
    }
}

/// What a removal has done so far: the directories git unregistered, the
/// orphans, and the directories kept with their reasons, in the order met.
pub struct RemovalTally {
    pub removed: Vec<String>,
    pub orphaned: Vec<String>,
    pub kept: Vec<(String, String)>,
}

impl RemovalTally {
    /// Nothing done yet.
    pub fn new() -> (r: Self)
        ensures
            r.removed@.len() == 0,
            r.orphaned@.len() == 0,
            r.kept@.len() == 0,
    {
        RemovalTally { removed: Vec::new(), orphaned: Vec::new(), kept: Vec::new() }
    }

    /// Record what became of the directory named `repo`, of this kind.
    /// `unregistered` is the outcome of handing it to git, which happens
    /// for a worktree and only for one.
    pub fn settle(
        &mut self,
        repo: String,
        kind: SpaceEntry,
        force: bool,
        unregistered: Option<Result<(), String>>,
    )
        requires
            kind is Worktree <==> unregistered is Some,
        ensures
            match disposition(kind, force, unregistered) {
                Disposition::Removed => final(self).removed@ == old(self).removed@.push(repo)
                    && final(self).orphaned@ == old(self).orphaned@ && final(self).kept@ == old(
                    self,
                ).kept@,
                Disposition::Orphaned => final(self).orphaned@ == old(self).orphaned@.push(repo)
                    && final(self).removed@ == old(self).removed@ && final(self).kept@ == old(
                    self,
                ).kept@,
                Disposition::Kept(reason) => pairs_view(final(self).kept@) == pairs_view(
                    old(self).kept@,
                ).push((repo@, reason)) && final(self).removed@ == old(self).removed@
                    && final(self).orphaned@ == old(self).orphaned@,
                Disposition::Dropped => final(self).removed@ == old(self).removed@
                    && final(self).orphaned@ == old(self).orphaned@ && final(self).kept@ == old(
                    self,
                ).kept@,
            },
    {
        let ghost old_kept = pairs_view(self.kept@);
        let reason: Option<String> = match kind {
            SpaceEntry::Shared { reason } => Some(reason),
            SpaceEntry::Plain => None,
            SpaceEntry::Orphan => {
                if force {
                    self.orphaned.push(repo);
                    return;
                }
                Some(String::from_str("its source repository is gone, so git cannot say whether the worktree holds uncommitted work; remove the space with force, or delete the directory by hand"))
            },
            SpaceEntry::Repository => Some(String::from_str("holds a git repository of its own, which space did not create; move it aside or delete it by hand, then remove the space again")),
            SpaceEntry::Unresolved(r) => Some(r),
            SpaceEntry::Unregistered { admin } => {
                let p = debug_path(admin.as_str());
                let mut m = String::from_str("git has no record of it any more, though its source repo is still there, so what it holds cannot be told\nits .git file names ");
                push_str(&mut m, p.as_str());
                push_str(&mut m, ", which does not exist; a copy of a worktree looks like this once the original is removed (a space duplicated with `cp -R`, for instance), and so does a worktree whose record was pruned or whose source repo was cloned again; keep what you need from it, delete it by hand, then remove the space again");
                Some(m)
            },
            SpaceEntry::Unreadable(why) => {
                let mut m = why;
                push_str(&mut m, ", so what this directory is cannot be told; look at it, then move it aside or delete it by hand, and remove the space again");
                Some(m)
            },
            SpaceEntry::Worktree { .. } => match unregistered {
                Some(Ok(())) => {
                    self.removed.push(repo);
                    return;
                },
                Some(Err(e)) => Some(e),
                None => None,
            },
        };
        if let Some(reason) = reason {
            self.kept.push((repo, reason));
            assert(pairs_view(self.kept@) =~= old_kept.push((repo@, reason@)));
        }
    }

    /// `Ok` when nothing was kept, so the space directory can go; else the
    /// report. `counts` is how many directories shared admin directories, and
    /// in how many groups.
    pub fn verdict(&self, name: &str, counts: (usize, usize)) -> (r: Result<(), String>)
        requires
            self.removed.len() + self.orphaned.len() + self.kept.len() <= u64::MAX,
        ensures
            self.kept@.len() == 0 ==> r is Ok,
            self.kept@.len() > 0 ==> (r matches Err(e) && e@ == report_spec(
                name@,
                strings_view(self.removed@),
                strings_view(self.orphaned@),
                pairs_view(self.kept@),
                counts.0 as nat,
                counts.1 as nat,
            )),
    {
        if self.kept.len() == 0 {
            Ok(())
        } else {
            Err(removal_report(name, &self.removed, &self.orphaned, &self.kept, counts))
        }
    }
}

/// One directory of a space being removed: its name, what it is, and, for
/// a worktree, how handing it to git went.
pub type SettledEntry = (String, SpaceEntry, Option<Result<(), String>>);

/// The names of the directories git unregistered, in order.
pub open spec fn removed_of(es: Seq<SettledEntry>, force: bool) -> Seq<Seq<char>>
    decreases es.len(),
{
    if es.len() == 0 {
        seq![]
    } else {
        removed_of(es.drop_last(), force) + (if disposition(es.last().1, force, es.last().2) is Removed {
            seq![es.last().0@]
        } else {
            seq![]
        })
    }
}

/// The names of the orphans, in order.
pub open spec fn orphaned_of(es: Seq<SettledEntry>, force: bool) -> Seq<Seq<char>>
    decreases es.len(),
{
    if es.len() == 0 {
        seq![]
    } else {
        orphaned_of(es.drop_last(), force) + (if disposition(es.last().1, force, es.last().2) is Orphaned {
            seq![es.last().0@]
        } else {
            seq![]
        })
    }
}

/// The directories kept, each with its reason, in order.
pub open spec fn kept_of(es: Seq<SettledEntry>, force: bool) -> Seq<(Seq<char>, Seq<char>)>
    decreases es.len(),
{
    if es.len() == 0 {
        seq![]
    } else {
        kept_of(es.drop_last(), force) + match disposition(es.last().1, force, es.last().2) {
            Disposition::Kept(reason) => seq![(es.last().0@, reason)],
            _ => seq![],
        }
    }
}

proof fn lemma_settled_counts(es: Seq<SettledEntry>, force: bool)
    ensures
        removed_of(es, force).len() + orphaned_of(es, force).len() + kept_of(es, force).len() <= es.len(),
        kept_of(es, force).len() == 0 <==> forall|i: int|
            0 <= i < es.len() ==> !(disposition((#[trigger] es[i]).1, force, es[i].2) is Kept),
    decreases es.len(),
{
    if es.len() > 0 {
        let init = es.drop_last();
        lemma_settled_counts(init, force);
        if kept_of(es, force).len() == 0 {
            assert forall|i: int| 0 <= i < es.len() implies !(disposition((#[trigger] es[i]).1, force, es[i].2) is Kept) by {
                if i < init.len() {
                    assert(init[i] == es[i]);
                }
            }
        } else if forall|i: int| 0 <= i < es.len() ==> !(disposition((#[trigger] es[i]).1, force, es[i].2) is Kept) {
            assert forall|i: int| 0 <= i < init.len() implies !(disposition((#[trigger] init[i]).1, force, init[i].2) is Kept) by {
                assert(init[i] == es[i]);
            }
            assert(!(disposition(es[es.len() - 1].1, force, es[es.len() - 1].2) is Kept));
        }
    }
}

/// Settle each directory of the space `name` in turn. The result is `Ok`,
/// so the space directory may be deleted, when none of them is kept; else
/// it is the report of what stays. `counts` is how many directories share
/// admin directories, and in how many groups.
pub fn settle_space(name: &str, entries: Vec<SettledEntry>, force: bool, counts: (usize, usize)) -> (r: Result<
    (),
    String,
>)
    requires
        entries@.len() <= u64::MAX,
        forall|i: int| 0 <= i < entries@.len() ==> ((#[trigger] entries@[i]).1 is Worktree <==> entries@[i].2 is Some),
    ensures
        r is Ok <==> forall|i: int|
            0 <= i < entries@.len() ==> !(disposition((#[trigger] entries@[i]).1, force, entries@[i].2) is Kept),
        r matches Err(e) ==> e@ == report_spec(
            name@,
            removed_of(entries@, force),
            orphaned_of(entries@, force),
            kept_of(entries@, force),
            counts.0 as nat,
            counts.1 as nat,
        ),
{
    let ghost all = entries@;
    let mut rest = entries;
    let mut tally = RemovalTally::new();
    let ghost mut done: int = 0;
    while rest.len() > 0
        invariant
            0 <= done <= all.len(),
            all.len() <= u64::MAX,
            rest@ == all.skip(done),
            forall|i: int| 0 <= i < all.len() ==> ((#[trigger] all[i]).1 is Worktree <==> all[i].2 is Some),
            strings_view(tally.removed@) == removed_of(all.take(done), force),
            strings_view(tally.orphaned@) == orphaned_of(all.take(done), force),
            pairs_view(tally.kept@) == kept_of(all.take(done), force),
        decreases rest.len(),
    {
        let (repo, kind, unregistered) = rest.remove(0);
        proof {
            assert(all[done] == (repo, kind, unregistered));
            assert(all.take(done + 1).drop_last() =~= all.take(done));
            assert(all.take(done + 1).last() == all[done]);
            assert(rest@ =~= all.skip(done + 1));
        }
        let ghost before_r = strings_view(tally.removed@);
        let ghost before_o = strings_view(tally.orphaned@);
        let ghost rname = repo@;
        tally.settle(repo, kind, force, unregistered);
        proof {
            match disposition(kind, force, unregistered) {
                Disposition::Removed => {
                    assert(strings_view(tally.removed@) =~= before_r.push(rname));
                },
                Disposition::Orphaned => {
                    assert(strings_view(tally.orphaned@) =~= before_o.push(rname));
                },
                _ => {},
            }
            done = done + 1;
        }
    }
    proof {
        assert(all.take(done) =~= all);
        lemma_settled_counts(all, force);
    }
    tally.verdict(name, counts)
}

/// The indices below `n` whose key is `Some(key)`, in order.
pub open spec fn mates_upto(keys: Seq<Option<String>>, key: Seq<char>, n: int) -> Seq<int>
    decreases n,
{
    if n <= 0 {
        seq![]
    } else {
        mates_upto(keys, key, n - 1) + (if keys[n - 1] matches Some(k) && k@ == key {
            seq![n - 1]
        } else {
            seq![]
        })
    }
}

/// Whether entry `i` is the first with its key.
pub open spec fn first_of_key(keys: Seq<Option<String>>, i: int) -> bool {
    keys[i] matches Some(k) && forall|j: int|
        0 <= j < i ==> !(#[trigger] keys[j] matches Some(l) && l@ == k@)
}

/// The groups of entries below `n` that share a key with at least one other
/// entry: each the ascending indices of one key, ordered by their first.
pub open spec fn groups_upto(keys: Seq<Option<String>>, n: int) -> Seq<Seq<int>>
    decreases n,
{
    if n <= 0 {
        seq![]
    } else {
        let i = n - 1;
        groups_upto(keys, i) + (if first_of_key(keys, i) && mates_upto(
            keys,
            keys[i]->0@,
            keys.len() as int,
        ).len() > 1 {
            seq![mates_upto(keys, keys[i]->0@, keys.len() as int)]
        } else {
            seq![]
        })
    }
}

pub open spec fn index_view(v: Seq<usize>) -> Seq<int> {
    v.map_values(|i: usize| i as int)
}

pub open spec fn groups_view(v: Seq<Vec<usize>>) -> Seq<Seq<int>> {
    v.map_values(|g: Vec<usize>| index_view(g@))
}

fn key_is(k: &Option<String>, key: &str) -> (r: bool)
    ensures
        r == (*k matches Some(x) && x@ == key@),
{
    match k {
        Some(x) => {
            let a = chars_of(x.as_str());
            let b = chars_of(key);
            if a.len() != b.len() {
                assert(x@.len() != key@.len());
                assert(x@ != key@);
                return false;
            }
            let mut i: usize = 0;
            while i < a.len()
                invariant
                    0 <= i <= a.len(),
                    a.len() == b.len(),
                    a@ == x@,
                    b@ == key@,
                    *k matches Some(y) && y@ == x@,
                    forall|j: int| 0 <= j < i ==> a@[j] == b@[j],
                decreases a.len() - i,
            {
                if a[i] != b[i] {
                    assert(x@[i as int] != key@[i as int]);
                    assert(x@ != key@);
                    return false;
                }
                i = i + 1;
            }
            assert(a@ =~= b@);
            true
        },
        None => false,
    }
}

fn mates_of(keys: &[Option<String>], key: &str) -> (r: Vec<usize>)
    ensures
        index_view(r@) == mates_upto(keys@, key@, keys@.len() as int),
{
    let mut r: Vec<usize> = Vec::new();
    let mut n: usize = 0;
    while n < keys.len()
        invariant
            0 <= n <= keys.len(),
            index_view(r@) == mates_upto(keys@, key@, n as int),
        decreases keys.len() - n,
    {
        let ghost old_r = index_view(r@);
        if key_is(&keys[n], key) {
            r.push(n);
            assert(index_view(r@) =~= old_r.push(n as int));
        }
        n = n + 1;
        assert(mates_upto(keys@, key@, n as int) =~= mates_upto(keys@, key@, n - 1) + (if keys@[n
            - 1] matches Some(k) && k@ == key@ {
            seq![n - 1]
        } else {
            seq![]
        }));
    }
    r
}

/// The groups of directories of a space whose keys (their admin
/// directories, canonical, as text; `None` for a directory that is no
/// worktree) are equal.
pub fn shared_groups(keys: &[Option<String>]) -> (r: Vec<Vec<usize>>)
    ensures
        groups_view(r@) == groups_upto(keys@, keys@.len() as int),
{
    let mut r: Vec<Vec<usize>> = Vec::new();
    let mut n: usize = 0;
    while n < keys.len()
        invariant
            0 <= n <= keys.len(),
            groups_view(r@) == groups_upto(keys@, n as int),
        decreases keys.len() - n,
    {
        let ghost old_r = groups_view(r@);
        if let Some(k) = &keys[n] {
            let mut first = true;
            let mut j: usize = 0;
            while j < n
                invariant
                    0 <= j <= n < keys.len(),
                    keys@[n as int] == Some(*k),
                    first == forall|x: int|
                        0 <= x < j ==> !(#[trigger] keys@[x] matches Some(l) && l@ == k@),
                decreases n - j,
            {
                if key_is(&keys[j], k.as_str()) {
                    first = false;
                }
                j = j + 1;
            }
            assert(first == first_of_key(keys@, n as int));
            if first {
                let m = mates_of(keys, k.as_str());
                if m.len() > 1 {
                    r.push(m);
                    assert(groups_view(r@) =~= old_r.push(index_view(m@)));
                }
            }
        }
        n = n + 1;
        assert(groups_upto(keys@, n as int) == groups_upto(keys@, n - 1) + (if first_of_key(
            keys@,
            n - 1,
        ) && mates_upto(keys@, keys@[n - 1]->0@, keys@.len() as int).len() > 1 {
            seq![mates_upto(keys@, keys@[n - 1]->0@, keys@.len() as int)]
        } else {
            seq![]
        }));
    }
    r
}

/// The first member below `n` whose record names it, if any.
pub open spec fn first_here(rec: Seq<RecordedAt>, n: int) -> Option<usize>
    decreases n,
{
    if n <= 0 {
        None
    } else {
        match first_here(rec, n - 1) {
            Some(i) => Some(i),
            None => if rec[n - 1] is Here {
                Some((n - 1) as usize)
            } else {
                None
            },
        }
    }
}

proof fn lemma_first_here_bound(rec: Seq<RecordedAt>, n: int)
    requires
        0 <= n <= rec.len() <= usize::MAX,
    ensures
        first_here(rec, n) matches Some(i) ==> 0 <= i < n && rec[i as int] is Here,
    decreases n,
{
    if n > 0 {
        lemma_first_here_bound(rec, n - 1);
    }
}

/// What each member of one group sharing an admin directory is told, given
/// each member's name and where the record points as seen from it. The
/// original is the first member the record names.
pub fn shared_reasons(names: &[String], recorded: &[RecordedAt]) -> (r: Vec<String>)
    requires
        names.len() == recorded.len(),
    ensures
        r@.len() == names@.len(),
        forall|me: int|
            0 <= me < names@.len() ==> #[trigger] r@[me]@ == pair_reason_spec(
                me,
                first_here(recorded@, recorded@.len() as int),
                strings_view(names@),
                recorded@[me],
            ),
{
    let mut original: Option<usize> = None;
    let mut i: usize = 0;
    while i < recorded.len()
        invariant
            0 <= i <= recorded.len(),
            original == first_here(recorded@, i as int),
        decreases recorded.len() - i,
    {
        if original.is_none() {
            if let RecordedAt::Here = recorded[i] {
                original = Some(i);
            }
        }
        i = i + 1;
    }
    proof {
        lemma_first_here_bound(recorded@, recorded@.len() as int);
    }
    let mut r: Vec<String> = Vec::new();
    let mut me: usize = 0;
    while me < names.len()
        invariant
            0 <= me <= names.len(),
            names.len() == recorded.len(),
            original == first_here(recorded@, recorded@.len() as int),
            original matches Some(o) ==> o < names.len(),
            r@.len() == me,
            forall|x: int|
                0 <= x < me ==> #[trigger] r@[x]@ == pair_reason_spec(
                    x,
                    original,
                    strings_view(names@),
                    recorded@[x],
                ),
        decreases names.len() - me,
    {
        let reason = pair_reason(me, original, names, &recorded[me]);
        r.push(reason);
        me = me + 1;
    }
    r
}

/// How many directories all the groups hold together.
pub open spec fn members_total(groups: Seq<Seq<int>>) -> nat
    decreases groups.len(),
{
    if groups.len() == 0 {
        0
    } else {
        members_total(groups.drop_last()) + groups.last().len()
    }
}

/// How many directories share admin directories, and in how many groups.
pub fn shared_counts(groups: &[Vec<usize>]) -> (r: (usize, usize))
    requires
        members_total(groups_view(groups@)) <= usize::MAX,
    ensures
        r.0 == members_total(groups_view(groups@)),
        r.1 == groups@.len(),
{
    let mut total: usize = 0;
    let mut i: usize = 0;
    proof {
        lemma_members_total_prefix(groups_view(groups@), 0);
    }
    while i < groups.len()
        invariant
            0 <= i <= groups.len(),
            total == members_total(groups_view(groups@).subrange(0, i as int)),
            members_total(groups_view(groups@)) <= usize::MAX,
        decreases groups.len() - i,
    {
        let ghost gv = groups_view(groups@);
        proof {
            assert(gv.subrange(0, i + 1).drop_last() =~= gv.subrange(0, i as int));
            lemma_members_total_prefix(gv, i + 1);
        }
        total = total + groups[i].len();
        i = i + 1;
    }
    assert(groups_view(groups@).subrange(0, i as int) =~= groups_view(groups@));
    (total, groups.len())
}

proof fn lemma_members_total_prefix(gs: Seq<Seq<int>>, n: int)
    requires
        0 <= n <= gs.len(),
    ensures
        members_total(gs.subrange(0, n)) <= members_total(gs),
    decreases gs.len() - n,
{
    if n < gs.len() {
        lemma_members_total_prefix(gs, n + 1);
        assert(gs.subrange(0, n + 1).drop_last() =~= gs.subrange(0, n));
    } else {
        assert(gs.subrange(0, n) =~= gs);
    }
}

/// Without force nothing is orphaned, and whatever holds a repository git
/// cannot account for (a shared admin directory, a repository of its own,
/// an unregistered copy, something unreadable or unresolved) is kept
/// whether forced or not: a removal only deletes what git handed back or,
/// when forced, what has no source repository left.
pub proof fn lemma_removal_keeps_what_git_cannot_vouch_for(
    kind: SpaceEntry,
    force: bool,
    unregistered: Option<Result<(), String>>,
)
    ensures
        !force ==> !(disposition(kind, force, unregistered) is Orphaned),
        disposition(kind, force, unregistered) is Removed ==> kind is Worktree && (
        unregistered matches Some(Ok(_))),
        disposition(kind, force, unregistered) is Orphaned ==> kind is Orphan && force,
        (kind is Shared || kind is Repository || kind is Unregistered || kind is Unreadable
            || kind is Unresolved) ==> disposition(kind, force, unregistered) is Kept,
{
}

proof fn lemma_mates(keys: Seq<Option<String>>, key: Seq<char>, n: int)
    requires
        0 <= n <= keys.len(),
    ensures
        forall|a: int|
            0 <= a < mates_upto(keys, key, n).len() ==> 0 <= #[trigger] mates_upto(keys, key, n)[a]
                < n && (keys[mates_upto(keys, key, n)[a]] matches Some(k) && k@ == key),
        forall|a: int, b: int|
            0 <= a < b < mates_upto(keys, key, n).len() ==> #[trigger] mates_upto(keys, key, n)[a]
                < #[trigger] mates_upto(keys, key, n)[b],
    decreases n,
{
    if n > 0 {
        lemma_mates(keys, key, n - 1);
    }
}

/// Every group of directories found sharing an admin directory has at least
/// two members, listed in ascending order, all naming that one directory.
pub proof fn lemma_shared_groups_share_one_key(keys: Seq<Option<String>>, n: int, g: int)
    requires
        0 <= n <= keys.len(),
        0 <= g < groups_upto(keys, n).len(),
    ensures
        groups_upto(keys, n)[g].len() > 1,
        forall|a: int|
            0 <= a < groups_upto(keys, n)[g].len() ==> (keys[#[trigger] groups_upto(keys, n)[g][a]] matches Some(
                k,
            ) && keys[groups_upto(keys, n)[g][0]] matches Some(k0) && k@ == k0@),
        forall|a: int, b: int|
            0 <= a < b < groups_upto(keys, n)[g].len() ==> #[trigger] groups_upto(keys, n)[g][a]
                < #[trigger] groups_upto(keys, n)[g][b],
    decreases n,
{
    if g < groups_upto(keys, n - 1).len() {
        lemma_shared_groups_share_one_key(keys, n - 1, g);
        assert(groups_upto(keys, n)[g] == groups_upto(keys, n - 1)[g]);
    } else {
        let key = keys[n - 1]->0@;
        lemma_mates(keys, key, keys.len() as int);
        assert(groups_upto(keys, n)[g] == mates_upto(keys, key, keys.len() as int));
    }
}

/// A linked worktree's `.git` file as git reads it: the exact prefix
/// `gitdir: `, then the path with only trailing `\n` and `\r` removed.
pub open spec fn gitfile_target(content: Seq<char>) -> Option<Seq<char>> {
    if starts(content, "gitdir: "@) {
        Some(trim_end_of(content.skip(8), '\n', '\r'))
    } else {
        None
    }
}

/// The readings of a `.git` file a hand edit or a lax writer makes of the
/// path git reads as `g`: trimmed at both ends, its first line alone, and
/// that line trimmed; those that differ from `g`.
pub open spec fn near_miss_texts(g: Seq<char>) -> Seq<Seq<char>> {
    let first = trim_end_of(before_newline(g), '\r', '\r');
    seq![trim(g), first, trim(first)].filter(differs_from(g))
}

/// The test "is not `g`".
pub open spec fn differs_from(g: Seq<char>) -> spec_fn(Seq<char>) -> bool {
    |m: Seq<char>| m != g
}

/// Each text resolved against `dir`.
pub open spec fn joined_to(dir: Seq<char>) -> spec_fn(Seq<char>) -> Seq<char> {
    |m: Seq<char>| join(dir, m)
}

/// What a worktree's `.git` file names, resolved against its directory.
pub struct GitdirReading {
    /// The admin directory git reads from the file.
    pub path: String,
    /// Whether the file named it by a relative path.
    pub relative: bool,
    /// The near-miss readings, resolved the same way.
    pub near_misses: Vec<String>,
}

/// Read the `.git` file of the worktree at `dir`, whose text is `content`.
pub fn read_gitfile(dir: &str, content: &str) -> (r: Result<GitdirReading, String>)
    ensures
        match gitfile_target(content@) {
            None => r matches Err(e) && e@ == "its .git file does not name a gitdir"@,
            Some(g) => r matches Ok(reading) && reading.path@ == join(dir@, g)
                && reading.relative == !(g.len() > 0 && g[0] == '/') && strings_view(
                reading.near_misses@,
            ) == near_miss_texts(g).map_values(joined_to(dir@)),
        },
{
    let v = chars_of(content);
    let prefix = chars_of("gitdir: ");
    proof {
        reveal_strlit("gitdir: ");
    }
    if !starts_with(&v, &prefix) {
        return Err(String::from_str("its .git file does not name a gitdir"));
    }
    let rest = slice_range(&v, 8, v.len());
    assert(rest@ =~= content@.skip(8));
    let g = trimmed_end_of(&rest, '\n', '\r');
    let relative = !(g.len() > 0 && g[0] == '/');
    let gs = string_of(&g);
    let path = path_join(dir, gs.as_str());
    let first = trimmed_end_of(first_piece(&g).as_slice(), '\r', '\r');
    let cands: Vec<Vec<char>> = vec![trimmed(&g), first.clone(), trimmed(&first)];
    let ghost cv = seq![trim(g@), first@, trim(first@)];
    assert(lines_view(cands@) =~= cv);
    let mut near: Vec<String> = Vec::new();
    let mut i: usize = 0;
    while i < 3
        invariant
            0 <= i <= 3,
            cands@.len() == 3,
            lines_view(cands@) == cv,
            strings_view(near@) == cv.subrange(0, i as int).filter(differs_from(g@)).map_values(
                joined_to(dir@),
            ),
        decreases 3 - i,
    {
        let c = &cands[i];
        let same = c.len() == g.len() && starts_with(c.as_slice(), g.as_slice());
        let ghost before = cv.subrange(0, i as int);
        proof {
            assert(cv.subrange(0, i + 1) =~= before.push(cv[i as int]));
            reveal(Seq::filter);
            assert(cv.subrange(0, i + 1).drop_last() =~= before);
            assert(cv.subrange(0, i + 1).filter(differs_from(g@)) == (if cv[i as int] != g@ {
                before.filter(differs_from(g@)).push(cv[i as int])
            } else {
                before.filter(differs_from(g@))
            }));
            assert(cv[i as int] == c@);
            if same {
                assert(c@ =~= g@);
            }
            if c@ == g@ {
                assert(c@.subrange(0, g@.len() as int) =~= g@);
            }
        }
        if !same {
            let cs = string_of(c.as_slice());
            let j = path_join(dir, cs.as_str());
            let ghost old_near = strings_view(near@);
            near.push(j);
            assert(strings_view(near@) =~= old_near.push(j@));
            assert(before.filter(differs_from(g@)).push(c@).map_values(joined_to(dir@)) =~= before.filter(
                differs_from(g@),
            ).map_values(joined_to(dir@)).push(join(dir@, c@)));
        }
        i = i + 1;
    }
    assert(cv.subrange(0, 3) =~= cv);
    Ok(GitdirReading { path, relative, near_misses: near })
}

/// Which admin directory the `.git` file names, and whether by a relative
/// path, or why it is not read: git's reading stands when it names
/// something that exists, or when none of the near misses does either (the
/// caller then finds it absent); when only a near miss names something
/// real, what was meant cannot be told.
pub fn gitdir_verdict(reading: GitdirReading, path_exists: bool, some_miss_exists: bool) -> (r:
    Result<(String, bool), String>)
    ensures
        (path_exists || !some_miss_exists) ==> (r matches Ok((p, rel)) && p@ == reading.path@
            && rel == reading.relative),
        (!path_exists && some_miss_exists) ==> (r matches Err(e) && e@
            == "its .git file names a live admin directory in a form git does not read (extra lines, or blanks around the path)"@),
{
    if path_exists || !some_miss_exists {
        Ok((reading.path, reading.relative))
    } else {
        Err(String::from_str("its .git file names a live admin directory in a form git does not read (extra lines, or blanks around the path)"))
    }
}

/// What asking for a path's metadata, without following a final link,
/// found there.
#[derive(Debug, Clone)]
pub enum PathProbe {
    /// Nothing is there.
    Missing,
    /// The question failed another way; the error as it prints.
    Failed(String),
    /// A directory.
    Dir,
    /// A regular file.
    File,
    /// Something else: a link, a socket, a device.
    Other,
}

/// What the disk says about the admin directory a `.git` file names.
pub struct AdminFacts {
    /// The admin directory, resolved against the space's directory.
    pub admin: String,
    /// Whether the `.git` file named it by a relative path.
    pub relative: bool,
    /// The admin directory itself.
    pub admin_probe: PathProbe,
    /// Its `commondir` file.
    pub commondir_probe: PathProbe,
    /// `<common>`, when the admin path has the shape git writes for a
    /// linked worktree, `<common>/worktrees/<id>` (see
    /// `common_dir_in_gits_shape`); anything when it has not.
    pub common_probe: PathProbe,
    /// Whether `<common>` looks like a repository (`objects`, or `config`
    /// and `HEAD`).
    pub common_is_repo: bool,
}

/// What the disk says about a directory of a space.
pub enum EntryFacts {
    /// Its `.git` is not a file; whether the directory still looks like a
    /// repository (a `.git` directory, or a bare repository's layout).
    NoGitfile { repo_like: bool },
    /// Its `.git` file could not be read as naming a gitdir; why.
    Unread(String),
    /// Its `.git` file names an admin directory.
    Read(AdminFacts),
}

/// The prefix of the messages about an admin directory.
pub open spec fn names_admin(admin: Seq<char>) -> Seq<char> {
    "its .git file names "@ + debug_path_str(admin)
}

/// The message for a relative gitdir that leads nowhere.
pub open spec fn unresolved_text(admin: Seq<char>, dir: Seq<char>) -> Seq<char> {
    "its .git file names a relative gitdir that no longer leads anywhere, which moving the space or its source repo leaves behind as well as deleting the source repo, so it is kept\nit points at "@
        + debug_path_str(admin)
        + ", which does not exist; if the space or the source repo was moved, run `git worktree repair "@
        + debug_path_str(dir)
        + "` from the source repo; if the source repo is gone, delete this directory by hand; then remove the space again"@
}

/// What a `.git` file whose admin directory is not there means: an orphan
/// only when the repository it belonged to is provably gone.
pub open spec fn absent_admin_spec(a: AdminFacts, r: SpaceEntry) -> bool {
    if gits_common_dir(a.admin@) is None {
        r matches SpaceEntry::Unreadable(m) && m@
            == "its .git file names a path that does not exist, in a form git does not write for a worktree\nthe path is "@
            + debug_path_str(a.admin@)
    } else {
        match a.common_probe {
            PathProbe::Missing => r is Orphan,
            PathProbe::Failed(e) => r matches SpaceEntry::Unreadable(m) && m@
                == "its .git file names a worktree of a directory that cannot be read ("@ + e@
                + ")\nthe path is "@ + debug_path_str(a.admin@),
            _ => if a.common_is_repo {
                r matches SpaceEntry::Unregistered { admin } && admin@ == a.admin@
            } else {
                r matches SpaceEntry::Unreadable(m) && m@
                    == "its .git file names a worktree of a directory that is not a git repository\nthe path is "@
                    + debug_path_str(a.admin@)
            },
        }
    }
}

/// What a directory whose `.git` file names `a.admin` is.
pub open spec fn admin_entry_spec(dir: Seq<char>, a: AdminFacts, r: SpaceEntry) -> bool {
    match a.admin_probe {
        PathProbe::Missing => if a.relative {
            r matches SpaceEntry::Unresolved(m) && m@ == unresolved_text(a.admin@, dir)
        } else {
            absent_admin_spec(a, r)
        },
        PathProbe::Failed(e) => r matches SpaceEntry::Unreadable(m) && m@ == names_admin(a.admin@)
            + ", which cannot be read ("@ + e@ + ")"@,
        PathProbe::Dir => match a.commondir_probe {
            PathProbe::File => r matches SpaceEntry::Worktree { admin } && admin@ == a.admin@,
            PathProbe::Missing => r is Repository,
            PathProbe::Failed(e) => r matches SpaceEntry::Unreadable(m) && m@ == names_admin(a.admin@)
                + ", which cannot be read ("@ + e@ + ")"@,
            _ => r matches SpaceEntry::Unreadable(m) && m@ == names_admin(a.admin@)
                + ", whose commondir is not a file"@,
        },
        _ => r matches SpaceEntry::Unreadable(m) && m@ == names_admin(a.admin@) + ", which is not a directory"@,
    }
}

fn absent_admin_entry(a: AdminFacts) -> (r: SpaceEntry)
    ensures
        absent_admin_spec(a, r),
{
    if common_dir_in_gits_shape(a.admin.as_str()).is_none() {
        let mut m = String::from_str(
            "its .git file names a path that does not exist, in a form git does not write for a worktree\nthe path is ",
        );
        push_str(&mut m, debug_path(a.admin.as_str()).as_str());
        return SpaceEntry::Unreadable(m);
    }
    match a.common_probe {
        PathProbe::Missing => SpaceEntry::Orphan,
        PathProbe::Failed(e) => {
            let mut m = String::from_str("its .git file names a worktree of a directory that cannot be read (");
            push_str(&mut m, e.as_str());
            push_str(&mut m, ")\nthe path is ");
            push_str(&mut m, debug_path(a.admin.as_str()).as_str());
            SpaceEntry::Unreadable(m)
        },
        _ => if a.common_is_repo {
            SpaceEntry::Unregistered { admin: a.admin }
        } else {
            let mut m = String::from_str(
                "its .git file names a worktree of a directory that is not a git repository\nthe path is ",
            );
            push_str(&mut m, debug_path(a.admin.as_str()).as_str());
            SpaceEntry::Unreadable(m)
        },
    }
}

fn admin_text(admin: &str, tail: &str) -> (r: String)
    ensures
        r@ == names_admin(admin@) + tail@,
{
    let mut m = String::from_str("its .git file names ");
    push_str(&mut m, debug_path(admin).as_str());
    push_str(&mut m, tail);
    m
}

fn cannot_read_text(admin: &str, e: &str) -> (r: String)
    ensures
        r@ == names_admin(admin@) + ", which cannot be read ("@ + e@ + ")"@,
{
    let mut m = admin_text(admin, ", which cannot be read (");
    push_str(&mut m, e);
    push_str(&mut m, ")");
    m
}

/// What a directory of a space is, from what the disk says of it: a
/// `.git` file is followed to its admin directory, and only an admin
/// directory that is provably gone, of a repository that is provably gone
/// too, makes an orphan; every other doubt is kept as unreadable or
/// unresolved.
pub fn space_entry_of(dir: &str, facts: EntryFacts) -> (r: SpaceEntry)
    ensures
        match facts {
            EntryFacts::NoGitfile { repo_like } => if repo_like {
                r is Repository
            } else {
                r is Plain
            },
            EntryFacts::Unread(why) => r matches SpaceEntry::Unreadable(m) && m@ == why@,
            EntryFacts::Read(a) => admin_entry_spec(dir@, a, r),
        },
{
    let a = match facts {
        EntryFacts::NoGitfile { repo_like } => {
            return if repo_like {
                SpaceEntry::Repository
            } else {
                SpaceEntry::Plain
            };
        },
        EntryFacts::Unread(why) => {
            return SpaceEntry::Unreadable(why);
        },
        EntryFacts::Read(a) => a,
    };
    match &a.admin_probe {
        PathProbe::Missing => {
            if a.relative {
                let mut m = String::from_str(
                    "its .git file names a relative gitdir that no longer leads anywhere, which moving the space or its source repo leaves behind as well as deleting the source repo, so it is kept\nit points at ",
                );
                push_str(&mut m, debug_path(a.admin.as_str()).as_str());
                push_str(
                    &mut m,
                    ", which does not exist; if the space or the source repo was moved, run `git worktree repair ",
                );
                push_str(&mut m, debug_path(dir).as_str());
                push_str(
                    &mut m,
                    "` from the source repo; if the source repo is gone, delete this directory by hand; then remove the space again",
                );
                SpaceEntry::Unresolved(m)
            } else {
                absent_admin_entry(a)
            }
        },
        PathProbe::Failed(e) => SpaceEntry::Unreadable(cannot_read_text(a.admin.as_str(), e.as_str())),
        PathProbe::Dir => match &a.commondir_probe {
            PathProbe::File => SpaceEntry::Worktree { admin: a.admin.clone() },
            PathProbe::Missing => SpaceEntry::Repository,
            PathProbe::Failed(e) => SpaceEntry::Unreadable(cannot_read_text(a.admin.as_str(), e.as_str())),
            _ => SpaceEntry::Unreadable(admin_text(a.admin.as_str(), ", whose commondir is not a file")),
        },
        _ => SpaceEntry::Unreadable(admin_text(a.admin.as_str(), ", which is not a directory")),
    }
}

/// `git worktree remove` is always given the worktree after `--`, so a
/// directory named like an option is a path; `--force` is passed twice only
/// when forced on a worktree git never finished building.
pub proof fn lemma_unregister_args_end_with_the_target(target: Seq<char>, force: bool, half_built: bool)
    ensures
        unregister_args_spec(target, force, half_built).last() == target,
        unregister_args_spec(target, force, half_built)[unregister_args_spec(target, force, half_built).len() - 2] == "--"@,
        unregister_args_spec(target, force, half_built).len() == 4 + (if force { 1int } else { 0 }) + (if force && half_built { 1int } else { 0 }),
{
}

} // verus!
