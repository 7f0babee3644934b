//! Creating a repo's worktree in a space: which branch name reaches the `-b`
//! slot of `git worktree add`, the exact argv of the add for each strategy,
//! what git's refusal means, and where the worktree goes.
use crate::paths::{join, name_of, name_or_empty, path_join};
use crate::text::{chars_of, matches_at, push_chars, push_str, slice_range, starts, string_of};
use vstd::prelude::*;

verus! {

/// How a repo's worktree gets its branch.
#[derive(Debug, Clone)]
pub enum BranchStrategy {
    /// Create a new branch with this name off the repo's default branch.
    NewBranch(String),
    /// Check out an existing branch (local or remote-tracking).
    ExistingBranch(String),
    /// Detached HEAD at the default branch.
    DetachedHead,
}

/// The remote the app fetches before an add; its prefix counts in every
/// repo, configured or not.
pub open spec fn default_remote() -> Seq<char> {
    "origin"@
}

/// `name` is `<remote>/<local>` with a non-empty `<local>`.
pub open spec fn splits_at(name: Seq<char>, remote: Seq<char>) -> bool {
    starts(name, remote.push('/')) && name.len() > remote.len() + 1
}

/// The remotes a name may be split at: the configured ones, then origin.
pub open spec fn candidates(remotes: Seq<String>) -> Seq<Seq<char>> {
    remotes.map_values(|r: String| r@).push(default_remote())
}

/// `l` is the length of the longest candidate `name` splits at.
pub open spec fn is_longest(name: Seq<char>, cands: Seq<Seq<char>>, l: int) -> bool {
    &&& exists|k: int| 0 <= k < cands.len() && splits_at(name, cands[k]) && cands[k].len() == l
    &&& forall|k: int| 0 <= k < cands.len() && splits_at(name, cands[k]) ==> cands[k].len() <= l
}

/// The split of an existing-branch name into `(remote, local)`: at the
/// longest candidate remote it begins with, when the rest is non-empty.
pub open spec fn split_spec(name: Seq<char>, remotes: Seq<String>) -> Option<
    (Seq<char>, Seq<char>),
> {
    let cands = candidates(remotes);
    if exists|k: int| 0 <= k < cands.len() && splits_at(name, cands[k]) {
        let l = choose|l: int| is_longest(name, cands, l);
        Some((name.subrange(0, l), name.subrange(l + 1, name.len() as int)))
    } else {
        None
    }
}

/// The split settled against the repo's own branches: for a remote other
/// than origin, a local branch named by the whole string (`whole_is_local`
/// is `Some(true)`) wins and the name is not split. `None` means no repo is
/// in hand, and the split rule applies alone.
pub open spec fn settled_spec(name: Seq<char>, remotes: Seq<String>, whole_is_local: Option<bool>) -> Option<
    (Seq<char>, Seq<char>),
> {
    match split_spec(name, remotes) {
        Some((remote, local)) => if remote != default_remote() && whole_is_local == Some(true) {
            None
        } else {
            Some((remote, local))
        },
        None => None,
    }
}

/// The `-b` slot name for a strategy whose split is already settled.
pub open spec fn slot_spec(strategy: BranchStrategy, split: Option<(Seq<char>, Seq<char>)>) -> Option<
    Seq<char>,
> {
    match strategy {
        BranchStrategy::NewBranch(name) => Some(name@),
        BranchStrategy::ExistingBranch(name) => match split {
            Some((_, local)) => Some(local),
            None => Some(name@),
        },
        BranchStrategy::DetachedHead => None,
    }
}

/// The settled split an attempt uses: only an existing-branch name splits.
pub open spec fn existing_split_spec(
    strategy: BranchStrategy,
    remotes: Seq<String>,
    whole_is_local: Option<bool>,
) -> Option<(Seq<char>, Seq<char>)> {
    match strategy {
        BranchStrategy::ExistingBranch(name) => settled_spec(name@, remotes, whole_is_local),
        _ => None,
    }
}

/// The view of a split as text.
pub open spec fn split_view(s: Option<(String, String)>) -> Option<(Seq<char>, Seq<char>)> {
    match s {
        Some((r, l)) => Some((r@, l@)),
        None => None,
    }
}

fn splits_here(nv: &[char], rv: &[char]) -> (r: bool)
    ensures
        r == splits_at(nv@, rv@),
{
    if nv.len() <= rv.len() || nv.len() - rv.len() < 2 {
        return false;
    }
    let mut p = slice_range(rv, 0, rv.len());
    p.push('/');
    assert(rv@.subrange(0, rv@.len() as int) =~= rv@);
    let r = matches_at(nv, &p, 0);
    r
}

proof fn lemma_consider_step(
    name: Seq<char>,
    cands: Seq<Seq<char>>,
    i: int,
    old_best: Option<usize>,
    best: Option<usize>,
)
    requires
        0 <= i < cands.len(),
        cands[i].len() <= usize::MAX,
        old_best is None ==> forall|k: int| 0 <= k < i ==> !splits_at(name, cands[k]),
        old_best matches Some(l) ==> {
            &&& exists|k: int| 0 <= k < i && splits_at(name, cands[k]) && cands[k].len() == l as int
            &&& forall|k: int| 0 <= k < i && splits_at(name, cands[k]) ==> cands[k].len() <= l
        },
        splits_at(name, cands[i]) && (old_best is None || old_best->0 < cands[i].len()) ==> best
            == Some(cands[i].len() as usize),
        !(splits_at(name, cands[i]) && (old_best is None || old_best->0 < cands[i].len()))
            ==> best == old_best,
    ensures
        best is None ==> forall|k: int| 0 <= k < i + 1 ==> !splits_at(name, cands[k]),
        best matches Some(l) ==> {
            &&& exists|k: int|
                0 <= k < i + 1 && splits_at(name, cands[k]) && cands[k].len() == l as int
            &&& forall|k: int| 0 <= k < i + 1 && splits_at(name, cands[k]) ==> cands[k].len() <= l
        },
{
    if splits_at(name, cands[i]) && (old_best is None || old_best->0 < cands[i].len()) {
        let l = best->0;
        assert(l as int == cands[i].len());
        assert(0 <= i < i + 1 && splits_at(name, cands[i]) && cands[i].len() == l as int);
        if old_best is None {
        } else {
            assert forall|k: int| 0 <= k < i + 1 && splits_at(name, cands[k]) implies cands[k].len()
                <= l by {
                if k < i {
                }
            }
        }
    } else {
        if let Some(l) = best {
            let k0 = choose|k: int|
                0 <= k < i && splits_at(name, cands[k]) && cands[k].len() == l as int;
            assert(0 <= k0 < i + 1 && splits_at(name, cands[k0]) && cands[k0].len() == l as int);
        }
    }
}

fn consider(nv: &[char], rv: &[char], best: Option<usize>) -> (r: Option<usize>)
    ensures
        splits_at(nv@, rv@) && (best is None || best->0 < rv@.len()) ==> r == Some(rv@.len() as usize),
        !(splits_at(nv@, rv@) && (best is None || best->0 < rv@.len())) ==> r == best,
{
    if splits_here(nv, rv) {
        let better = match best {
            None => true,
            Some(l) => rv.len() > l,
        };
        if better {
            return Some(rv.len());
        }
    }
    best
}

/// Split an existing-branch name into `(remote, local)` when it is the
/// `<remote>/<local>` form the branch picker offers for a remote-tracking
/// branch: `remote` is one of `remotes` or origin, the longest one wins (a
/// remote name may itself hold `/`), and an empty local part is no split.
pub fn split_remote_branch(name: &str, remotes: &[String]) -> (r: Option<(String, String)>)
    ensures
        split_view(r) == split_spec(name@, remotes@),
{
    let nv = chars_of(name);
    let ghost cands = candidates(remotes@);
    let mut best: Option<usize> = None;
    let mut i: usize = 0;
    while i < remotes.len()
        invariant
            0 <= i <= remotes.len(),
            nv@ == name@,
            cands == candidates(remotes@),
            cands.len() == remotes.len() + 1,
            best is None ==> forall|k: int| 0 <= k < i ==> !splits_at(name@, cands[k]),
            best matches Some(l) ==> {
                &&& exists|k: int|
                    0 <= k < i && splits_at(name@, cands[k]) && cands[k].len() == l as int
                &&& forall|k: int| 0 <= k < i && splits_at(name@, cands[k]) ==> cands[k].len() <= l
            },
        decreases remotes.len() - i,
    {
        let rv = chars_of(remotes[i].as_str());
        assert(rv@ == cands[i as int]);
        let rl = rv.len();
        assert(rl == rv@.len());
        let ghost old_best = best;
        best = consider(&nv, &rv, best);
        proof {
            lemma_consider_step(name@, cands, i as int, old_best, best);
        }
        i = i + 1;
    }
    let rv = chars_of("origin");
    assert(rv@ == cands[i as int]);
    let rl = rv.len();
    assert(rl == rv@.len());
    let ghost old_best = best;
    best = consider(&nv, &rv, best);
    proof {
        lemma_consider_step(name@, cands, i as int, old_best, best);
    }
    match best {
        None => {
            assert(!(exists|k: int| 0 <= k < cands.len() && splits_at(name@, cands[k])));
            None
        },
        Some(l) => {
            proof {
                assert(is_longest(name@, cands, l as int)) by {
                    assert forall|k: int| 0 <= k < cands.len() && splits_at(name@, cands[k]) implies cands[k].len() <= l by {
                        assert(k < i + 1);
                    }
                }
                let c = choose|l2: int| is_longest(name@, cands, l2);
                assert(is_longest(name@, cands, c));
                let k1 = choose|k: int|
                    0 <= k < cands.len() && splits_at(name@, cands[k]) && cands[k].len() == c;
                let k2 = choose|k: int|
                    0 <= k < cands.len() && splits_at(name@, cands[k]) && cands[k].len() == l as int;
                assert(cands[k1].len() <= l);
                assert(cands[k2].len() <= c);
                assert(name@.len() > l + 1);
            }
            let nl = nv.len();
            assert(l + 1 < nl);
            let remote = slice_range(&nv, 0, l);
            let local = slice_range(&nv, l + 1, nv.len());
            Some((string_of(&remote), string_of(&local)))
        },
    }
}

fn is_origin(s: &str) -> (r: bool)
    ensures
        r == (s@ == default_remote()),
{
    let v = chars_of(s);
    let o = chars_of("origin");
    if v.len() != o.len() {
        return false;
    }
    let r = matches_at(&v, &o, 0);
    proof {
        if r {
            assert(v@ =~= v@.subrange(0, o@.len() as int));
        } else {
            if v@ == o@ {
                assert(v@.subrange(0, o@.len() as int) =~= o@);
            }
        }
    }
    r
}

/// `split_remote_branch` settled against the repo's branches: for a remote
/// other than origin, a local branch named by the whole string wins.
pub fn split_remote_branch_in(name: &str, remotes: &[String], whole_is_local: Option<bool>) -> (r:
    Option<(String, String)>)
    ensures
        split_view(r) == settled_spec(name@, remotes@, whole_is_local),
{
    match split_remote_branch(name, remotes) {
        Some((remote, local)) => {
            if !is_origin(remote.as_str()) && whole_is_local == Some(true) {
                None
            } else {
                Some((remote, local))
            }
        },
        None => None,
    }
}

/// `split_remote_branch_in` for an existing-branch strategy, none otherwise.
pub fn existing_split(strategy: &BranchStrategy, remotes: &[String], whole_is_local: Option<bool>) -> (r:
    Option<(String, String)>)
    ensures
        split_view(r) == existing_split_spec(*strategy, remotes@, whole_is_local),
{
    match strategy {
        BranchStrategy::ExistingBranch(name) => split_remote_branch_in(
            name.as_str(),
            remotes,
            whole_is_local,
        ),
        _ => None,
    }
}

/// The `-b` slot name for a strategy whose split is settled: a new branch's
/// name, an existing branch's local part, none for a detached HEAD.
pub fn slot_for(strategy: &BranchStrategy, split: &Option<(String, String)>) -> (r: Option<String>)
    ensures
        match slot_spec(*strategy, split_view(*split)) {
            None => r is None,
            Some(s) => r matches Some(x) && x@ == s,
        },
{
    match strategy {
        BranchStrategy::NewBranch(name) => Some(name.clone()),
        BranchStrategy::ExistingBranch(name) => match split {
            Some((_, local)) => Some(local.clone()),
            None => Some(name.clone()),
        },
        BranchStrategy::DetachedHead => None,
    }
}

/// The branch name a strategy hands to the `-b` slot of `git worktree add`.
/// `whole_is_local` is whether the repo has a local branch named by the
/// whole existing-branch string, or `None` with no repo in hand.
pub fn branch_slot_name(strategy: &BranchStrategy, remotes: &[String], whole_is_local: Option<bool>) -> (r:
    Option<String>)
    ensures
        match slot_spec(*strategy, existing_split_spec(*strategy, remotes@, whole_is_local)) {
            None => r is None,
            Some(s) => r matches Some(x) && x@ == s,
        },
{
    let split = existing_split(strategy, remotes, whole_is_local);
    slot_for(strategy, &split)
}


/// `refspec` with surrounding whitespace and a leading `+` removed.
pub open spec fn bare_refspec(refspec: Seq<char>) -> Seq<char> {
    let t = crate::text::trim(refspec);
    if t.len() > 0 && t[0] == '+' {
        t.drop_first()
    } else {
        t
    }
}

/// Whether a destination written by a fetch lands under `prefix`: a
/// destination without `refs/` is a local branch to git; otherwise it is
/// under the prefix, or it is a wildcard whose literal part leads to it.
pub open spec fn dst_under(dst: Seq<char>, prefix: Seq<char>) -> bool {
    if !starts(dst, "refs/"@) {
        prefix == "refs/heads/"@
    } else if starts(dst, prefix) {
        true
    } else {
        exists|j: int| crate::text::first_at(dst, seq!['*'], j) && starts(prefix, dst.subrange(0, j))
    }
}

/// Whether one configured fetch refspec can write a ref under `prefix`:
/// it needs a `:` and a non-empty destination after the first one.
pub open spec fn writes_under(refspec: Seq<char>, prefix: Seq<char>) -> bool {
    let s = bare_refspec(refspec);
    exists|i: int|
        crate::text::first_at(s, seq![':'], i) && {
            let dst = s.subrange(i + 1, s.len() as int);
            dst.len() > 0 && dst_under(dst, prefix)
        }
}

/// Whether the fetch refspec `spec` (one `remote.origin.fetch` entry) can
/// write a ref under `prefix` (`refs/heads/` for a local branch,
/// `refs/remotes/<remote>/` for another remote's tracking branch).
pub fn refspec_writes_under(spec: &str, prefix: &str) -> (r: bool)
    ensures
        r == writes_under(spec@, prefix@),
{
    let v = chars_of(spec);
    let t = crate::text::trimmed(&v);
    let s = if t.len() > 0 && t[0] == '+' {
        slice_range(&t, 1, t.len())
    } else {
        slice_range(&t, 0, t.len())
    };
    assert(s@ =~= bare_refspec(spec@));
    let colon = vec![':'];
    assert(colon@ =~= seq![':']);
    match crate::text::find(&s, &colon) {
        None => {
            proof {
                assert forall|i: int| !crate::text::first_at(s@, seq![':'], i) by {
                    if crate::text::first_at(s@, seq![':'], i) {
                        assert(crate::text::occurs_at(s@, colon@, i));
                    }
                }
            }
            false
        },
        Some(i) => {
            let dst = slice_range(&s, i + 1, s.len());
            let pv = chars_of(prefix);
            let r = if dst.len() == 0 {
                false
            } else {
                let refs = chars_of("refs/");
                let heads = chars_of("refs/heads/");
                if !crate::text::starts_with(&dst, &refs) {
                    pv.len() == heads.len() && matches_at(&pv, &heads, 0)
                } else if crate::text::starts_with(&dst, &pv) {
                    true
                } else {
                    let star = vec!['*'];
                    assert(star@ =~= seq!['*']);
                    match crate::text::find(&dst, &star) {
                        None => {
                            proof {
                                assert forall|j: int|
                                    !crate::text::first_at(dst@, seq!['*'], j) by {
                                    if crate::text::first_at(dst@, seq!['*'], j) {
                                        assert(crate::text::occurs_at(dst@, star@, j));
                                    }
                                }
                            }
                            false
                        },
                        Some(j) => {
                            let lit = slice_range(&dst, 0, j);
                            crate::text::starts_with(&pv, &lit)
                        },
                    }
                }
            };
            proof {
                let heads = "refs/heads/"@;
                if pv@.len() == heads.len() {
                    assert(pv@.subrange(0, heads.len() as int) =~= pv@);
                }
                assert forall|i2: int| crate::text::first_at(s@, seq![':'], i2) implies i2
                    == i by {
                    if i2 < i {
                        assert(crate::text::occurs_at(s@, colon@, i2));
                    }
                    if i < i2 {
                        assert(crate::text::occurs_at(s@, colon@, i as int));
                    }
                }
                assert forall|j1: int, j2: int|
                    crate::text::first_at(dst@, seq!['*'], j1) && crate::text::first_at(
                        dst@,
                        seq!['*'],
                        j2,
                    ) implies j1 == j2 by {
                    if j1 < j2 {
                        assert(crate::text::occurs_at(dst@, seq!['*'], j1));
                    }
                    if j2 < j1 {
                        assert(crate::text::occurs_at(dst@, seq!['*'], j2));
                    }
                }
                assert(crate::text::first_at(s@, seq![':'], i as int));
            }
            r
        },
    }
}

/// The two spellings of git's "that branch is held by another worktree"
/// refusal (git 2.42 and later, and git 2.38 to 2.41).
pub open spec fn holds_branch_marker(err: Seq<char>) -> bool {
    crate::text::has_sub(err, "used by worktree at '"@) || crate::text::has_sub(
        err,
        "checked out at '"@,
    )
}

/// Whether git refused a `worktree add` because the branch is checked out
/// elsewhere, which the Creating stage treats as "pick another strategy".
pub fn refuses_because_checked_out(err: &str) -> (r: bool)
    ensures
        r == holds_branch_marker(err@),
{
    let v = chars_of(err);
    let m1 = chars_of("used by worktree at '");
    let m2 = chars_of("checked out at '");
    crate::text::contains(&v, &m1) || crate::text::contains(&v, &m2)
}

/// `refs/remotes/<remote>/<name>`.
pub open spec fn tracking_ref(remote: Seq<char>, name: Seq<char>) -> Seq<char> {
    "refs/remotes/"@ + remote + seq!['/'] + name
}

/// `refs/heads/<name>`.
pub open spec fn heads_ref(name: Seq<char>) -> Seq<char> {
    "refs/heads/"@ + name
}

/// The base branch fully qualified; a detached source repo's `HEAD` stays.
pub open spec fn qualified_base(base: Seq<char>) -> Seq<char> {
    if base == "HEAD"@ {
        base
    } else {
        heads_ref(base)
    }
}

/// The remote-tracking ref for `<remote>/<name>`, fully qualified.
pub fn remote_tracking_ref(remote: &str, name: &str) -> (r: String)
    ensures
        r@ == tracking_ref(remote@, name@),
{
    let mut out = String::from_str("refs/remotes/");
    push_str(&mut out, remote);
    push_str(&mut out, "/");
    proof {
        reveal_strlit("/");
    }
    push_str(&mut out, name);
    assert(out@ =~= tracking_ref(remote@, name@));
    out
}

/// The local branch ref `refs/heads/<name>`.
pub fn local_branch_ref(name: &str) -> (r: String)
    ensures
        r@ == heads_ref(name@),
{
    let mut out = String::from_str("refs/heads/");
    push_str(&mut out, name);
    out
}

fn is_head(s: &str) -> (r: bool)
    ensures
        r == (s@ == "HEAD"@),
{
    let v = chars_of(s);
    let h = chars_of("HEAD");
    if v.len() != h.len() {
        return false;
    }
    let r = matches_at(&v, &h, 0);
    proof {
        if r {
            assert(v@ =~= v@.subrange(0, h@.len() as int));
        } else if v@ == h@ {
            assert(v@.subrange(0, h@.len() as int) =~= h@);
        }
    }
    r
}

/// The fully qualified form of the base branch: `refs/heads/<branch>`, or
/// `HEAD` itself when the source repo is detached.
pub fn base_ref(base_branch: &str) -> (r: String)
    ensures
        r@ == qualified_base(base_branch@),
{
    if is_head(base_branch) {
        String::from_str(base_branch)
    } else {
        local_branch_ref(base_branch)
    }
}

/// What the probes before an add found: `refs/heads/<branch>`,
/// `refs/remotes/origin/<branch>` and `refs/remotes/origin/<base>`.
#[derive(Debug, Clone, Copy)]
pub struct RefProbes {
    pub local_branch: bool,
    pub remote_branch: bool,
    pub origin_base: bool,
}

/// The argv of `git worktree add` for a strategy. Every form puts `--`
/// before the path, so a dash in the path or commit-ish slot is a name.
pub open spec fn add_args(
    wt: Seq<char>,
    base: Seq<char>,
    strategy: BranchStrategy,
    split: Option<(Seq<char>, Seq<char>)>,
    probes: RefProbes,
) -> Seq<Seq<char>> {
    match strategy {
        BranchStrategy::NewBranch(b) => if probes.local_branch {
            seq!["worktree"@, "add"@, "--"@, wt, b@]
        } else if probes.remote_branch {
            seq![
                "worktree"@,
                "add"@,
                "--track"@,
                "-b"@,
                b@,
                "--"@,
                wt,
                tracking_ref(default_remote(), b@),
            ]
        } else {
            seq![
                "worktree"@,
                "add"@,
                "-b"@,
                b@,
                "--"@,
                wt,
                if probes.origin_base {
                    tracking_ref(default_remote(), base)
                } else {
                    qualified_base(base)
                },
            ]
        },
        BranchStrategy::ExistingBranch(n) => match split {
            Some((remote, local)) => seq![
                "worktree"@,
                "add"@,
                "--track"@,
                "-b"@,
                local,
                "--"@,
                wt,
                tracking_ref(remote, local),
            ],
            None => seq!["worktree"@, "add"@, "--"@, wt, n@],
        },
        BranchStrategy::DetachedHead => seq![
            "worktree"@,
            "add"@,
            "--detach"@,
            "--"@,
            wt,
            qualified_base(base),
        ],
    }
}

/// The argument list as text.
pub open spec fn args_view(v: Seq<String>) -> Seq<Seq<char>> {
    v.map_values(|s: String| s@)
}

fn lit(s: &str) -> (r: String)
    ensures
        r@ == s@,
{
    String::from_str(s)
}

/// The argv of the `git worktree add` that creates the worktree at `wt`
/// for `strategy`, given the base branch, the settled split and the probes.
pub fn worktree_add_args(
    wt: &str,
    base_branch: &str,
    strategy: &BranchStrategy,
    split: &Option<(String, String)>,
    probes: RefProbes,
) -> (r: Vec<String>)
    ensures
        args_view(r@) == add_args(wt@, base_branch@, *strategy, split_view(*split), probes),
{
    let mut a: Vec<String> = Vec::new();
    a.push(lit("worktree"));
    a.push(lit("add"));
    match strategy {
        BranchStrategy::NewBranch(b) => {
            if probes.local_branch {
                a.push(lit("--"));
                a.push(lit(wt));
                a.push(b.clone());
            } else if probes.remote_branch {
                a.push(lit("--track"));
                a.push(lit("-b"));
                a.push(b.clone());
                a.push(lit("--"));
                a.push(lit(wt));
                a.push(remote_tracking_ref("origin", b.as_str()));
            } else {
                a.push(lit("-b"));
                a.push(b.clone());
                a.push(lit("--"));
                a.push(lit(wt));
                if probes.origin_base {
                    a.push(remote_tracking_ref("origin", base_branch));
                } else {
                    a.push(base_ref(base_branch));
                }
            }
        },
        BranchStrategy::ExistingBranch(n) => match split {
            Some((remote, local)) => {
                a.push(lit("--track"));
                a.push(lit("-b"));
                a.push(local.clone());
                a.push(lit("--"));
                a.push(lit(wt));
                a.push(remote_tracking_ref(remote.as_str(), local.as_str()));
            },
            None => {
                a.push(lit("--"));
                a.push(lit(wt));
                a.push(n.clone());
            },
        },
        BranchStrategy::DetachedHead => {
            a.push(lit("--detach"));
            a.push(lit("--"));
            a.push(lit(wt));
            a.push(base_ref(base_branch));
        },
    }
    assert(args_view(a@) =~= add_args(wt@, base_branch@, *strategy, split_view(*split), probes));
    a
}

/// The path `create_worktree` adds for `repo_path` in this space:
/// `<ws_dir>/<ws_name>/<the repo directory's name>`.
pub fn worktree_path(ws_dir: &str, ws_name: &str, repo_path: &str) -> (r: String)
    ensures
        r@ == join(join(ws_dir@, ws_name@), name_or_empty(repo_path@)),
{
    let space = path_join(ws_dir, ws_name);
    let repo = name_of(repo_path);
    path_join(space.as_str(), repo.as_str())
}

/// Every form of the add puts `--` right before the worktree's path, so a
/// path (or the ref after it) that begins with `-` is never read as an
/// option; the path appears once the separator is given.
pub proof fn lemma_add_args_separate_the_path(
    wt: Seq<char>,
    base: Seq<char>,
    strategy: BranchStrategy,
    split: Option<(Seq<char>, Seq<char>)>,
    probes: RefProbes,
)
    ensures
        exists|i: int|
            0 <= i && i + 1 < add_args(wt, base, strategy, split, probes).len() && #[trigger] add_args(
                wt,
                base,
                strategy,
                split,
                probes,
            )[i] == "--"@ && add_args(wt, base, strategy, split, probes)[i + 1] == wt,
        add_args(wt, base, strategy, split, probes)[0] == "worktree"@,
        add_args(wt, base, strategy, split, probes)[1] == "add"@,
{
    let a = add_args(wt, base, strategy, split, probes);
    match strategy {
        BranchStrategy::NewBranch(b) => if probes.local_branch {
            assert(a[2] == "--"@ && a[3] == wt);
        } else if probes.remote_branch {
            assert(a[5] == "--"@ && a[6] == wt);
        } else {
            assert(a[4] == "--"@ && a[5] == wt);
        },
        BranchStrategy::ExistingBranch(n) => match split {
            Some((remote, local)) => {
                assert(a[5] == "--"@ && a[6] == wt);
            },
            None => {
                assert(a[2] == "--"@ && a[3] == wt);
            },
        },
        BranchStrategy::DetachedHead => {
            assert(a[3] == "--"@ && a[4] == wt);
        },
    }
}

/// What the add checks out and which branch it makes: the last argument
/// is the commit-ish the new worktree starts at, right after `--` and the
/// path; `-b` (when given) names the branch created there.
/// - a new branch that exists locally is checked out by its own name, and
///   nothing is created;
/// - a new branch found only on origin is created from
///   `refs/remotes/origin/<name>`;
/// - any other new branch is created from the base branch, origin's copy
///   when there is one, else the local branch;
/// - an existing branch not named through a remote is checked out by its
///   own name, and nothing is created;
/// - an existing `<remote>/<local>` is created as `<local>` from
///   `refs/remotes/<remote>/<local>`;
/// - a detached HEAD starts at the base branch and creates nothing.
pub proof fn lemma_add_args_check_out_what_was_asked(
    wt: Seq<char>,
    base: Seq<char>,
    strategy: BranchStrategy,
    split: Option<(Seq<char>, Seq<char>)>,
    probes: RefProbes,
)
    ensures
        ({
            let a = add_args(wt, base, strategy, split, probes);
            let base_local = if base == "HEAD"@ {
                base
            } else {
                "refs/heads/"@ + base
            };
            match strategy {
                BranchStrategy::NewBranch(b) => if probes.local_branch {
                    a.len() == 5 && a[2] == "--"@ && a.last() == b@
                } else {
                    a[a.len() - 5] == "-b"@ && a[a.len() - 4] == b@ && a[a.len() - 3] == "--"@ && a[a.len() - 2] == wt
                        && a.last() == (
                    if probes.remote_branch {
                        "refs/remotes/origin/"@ + b@
                    } else if probes.origin_base {
                        "refs/remotes/origin/"@ + base
                    } else {
                        base_local
                    })
                },
                BranchStrategy::ExistingBranch(n) => match split {
                    None => a.len() == 5 && a[2] == "--"@ && a.last() == n@,
                    Some((remote, local)) => a[a.len() - 5] == "-b"@ && a[a.len() - 4] == local && a.last()
                        == "refs/remotes/"@ + remote + "/"@ + local,
                },
                BranchStrategy::DetachedHead => a.len() == 6 && a[2] == "--detach"@ && a[3] == "--"@
                    && a.last() == base_local,
            }
        }),
{
    reveal_strlit("-b");
    reveal_strlit("--");
    reveal_strlit("--detach");
    reveal_strlit("--track");
    reveal_strlit("worktree");
    reveal_strlit("add");
    reveal_strlit("/");
    reveal_strlit("origin");
    reveal_strlit("refs/remotes/");
    reveal_strlit("refs/remotes/origin/");
    reveal_strlit("refs/heads/");
    let a = add_args(wt, base, strategy, split, probes);
    assert("refs/remotes/"@ + "origin"@ + seq!['/'] =~= "refs/remotes/origin/"@);
    assert("/"@ =~= seq!['/']);
    match strategy {
        BranchStrategy::NewBranch(b) => {
            if probes.local_branch {
                assert(a =~= seq!["worktree"@, "add"@, "--"@, wt, b@]);
            } else {
                if probes.remote_branch {
                    assert(a[3] == "-b"@);
                    assert(("refs/remotes/"@ + "origin"@ + seq!['/']) + b@ =~= "refs/remotes/origin/"@ + b@);
                } else {
                    assert(a[2] == "-b"@);
                    if probes.origin_base {
                        assert(("refs/remotes/"@ + "origin"@ + seq!['/']) + base =~= "refs/remotes/origin/"@ + base);
                    }
                }
            }
        },
        BranchStrategy::ExistingBranch(n) => match split {
            None => {
                assert(a =~= seq!["worktree"@, "add"@, "--"@, wt, n@]);
            },
            Some((remote, local)) => {
                assert("refs/remotes/"@ + remote + seq!['/'] + local =~= "refs/remotes/"@ + remote + "/"@ + local);
            },
        },
        BranchStrategy::DetachedHead => {
            assert(a[2] == "--detach"@);
        },
    }
}

} // verus!
