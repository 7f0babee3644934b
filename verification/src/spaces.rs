//! The spaces on disk as the app lists them: each space with its repos,
//! ordered by name, and the rows shown while a space's details load.
use crate::names::{checked_space_name, plain_component_error};
use crate::paths::{join, path_join};
use crate::shown::debug_str;
use crate::status::{lemma_text_order, text_less, RepoStatus};
use crate::text::{chars_of, push_str};
use vstd::prelude::*;

verus! {

/// One repo of a space, with its branch, file counts and distance from
/// its upstream.
#[derive(Debug, Clone)]
pub struct WorkspaceRepo {
    pub name: String,
    pub path: String,
    pub branch: String,
    pub status: RepoStatus,
    pub ahead: usize,
    pub behind: usize,
}

/// A space and its repos.
pub struct Workspace {
    pub name: String,
    pub path: String,
    pub repos: Vec<WorkspaceRepo>,
}

/// The row a repo gets before its details are read: branch `...`, no
/// changes, level with its upstream.
pub fn skeleton_repo(name: String, path: String) -> (r: WorkspaceRepo)
    ensures
        r.name@ == name@,
        r.path@ == path@,
        r.branch@ == "..."@,
        r.status.modified == 0 && r.status.staged == 0 && r.status.untracked == 0,
        r.ahead == 0 && r.behind == 0,
{
    WorkspaceRepo {
        name,
        path,
        branch: String::from_str("..."),
        status: RepoStatus { modified: 0, staged: 0, untracked: 0 },
        ahead: 0,
        behind: 0,
    }
}

/// A repo's row from what could be read of it: `?` for a branch that could
/// not be read, no changes for a status that could not, level for counts
/// that could not.
pub fn repo_row(
    name: String,
    path: String,
    branch: Option<String>,
    status: Option<RepoStatus>,
    counts: Option<(usize, usize)>,
) -> (r: WorkspaceRepo)
    ensures
        r.name@ == name@,
        r.path@ == path@,
        r.branch@ == (match branch {
            Some(b) => b@,
            None => "?"@,
        }),
        match status {
            Some(s) => r.status == s,
            None => r.status.modified == 0 && r.status.staged == 0 && r.status.untracked == 0,
        },
        match counts {
            Some((a, b)) => r.ahead == a && r.behind == b,
            None => r.ahead == 0 && r.behind == 0,
        },
{
    let branch = match branch {
        Some(b) => b,
        None => String::from_str("?"),
    };
    let status = match status {
        Some(s) => s,
        None => RepoStatus { modified: 0, staged: 0, untracked: 0 },
    };
    let (ahead, behind) = match counts {
        Some(c) => c,
        None => (0, 0),
    };
    WorkspaceRepo { name, path, branch, status, ahead, behind }
}

/// `s` (by name) with `x` put after every repo whose name it does not come
/// before: one step of a stable sort by name.
pub open spec fn insert_repo(s: Seq<WorkspaceRepo>, x: WorkspaceRepo) -> Seq<WorkspaceRepo>
    decreases s.len(),
{
    if s.len() == 0 {
        seq![x]
    } else if text_less(x.name@, s.last().name@) {
        insert_repo(s.drop_last(), x).push(s.last())
    } else {
        s.push(x)
    }
}

/// `s` sorted stably by name.
pub open spec fn sort_repos_spec(s: Seq<WorkspaceRepo>) -> Seq<WorkspaceRepo>
    decreases s.len(),
{
    if s.len() == 0 {
        seq![]
    } else {
        insert_repo(sort_repos_spec(s.drop_last()), s.last())
    }
}

fn name_lt(a: &String, b: &String) -> (r: bool)
    ensures
        r == text_less(a@, b@),
{
    let x = chars_of(a.as_str());
    let y = chars_of(b.as_str());
    let mut i: usize = 0;
    assert(x@.skip(0) =~= x@);
    assert(y@.skip(0) =~= y@);
    while i < x.len() && i < y.len() && x[i] == y[i]
        invariant
            0 <= i <= x.len(),
            i <= y.len(),
            x@ == a@,
            y@ == b@,
            text_less(x@, y@) == text_less(x@.skip(i as int), y@.skip(i as int)),
        decreases x.len() - i,
    {
        proof {
            assert(x@.skip(i as int).drop_first() =~= x@.skip(i + 1));
            assert(y@.skip(i as int).drop_first() =~= y@.skip(i + 1));
        }
        i = i + 1;
    }
    proof {
        if i < x.len() && i < y.len() {
            assert(x@.skip(i as int)[0] == x@[i as int]);
            assert(y@.skip(i as int)[0] == y@[i as int]);
        }
    }
    if i == x.len() {
        i < y.len()
    } else if i == y.len() {
        false
    } else {
        (x[i] as u32) < (y[i] as u32)
    }
}

fn insert_repo_into(v: &mut Vec<WorkspaceRepo>, x: WorkspaceRepo)
    ensures
        final(v)@ == insert_repo(old(v)@, x),
    decreases old(v)@.len(),
{
    let ghost ov = v@;
    if v.len() == 0 {
        v.push(x);
        assert(v@ =~= seq![x]);
        return;
    }
    if name_lt(&x.name, &v[v.len() - 1].name) {
        let last = v.pop().unwrap();
        assert(v@ =~= ov.drop_last());
        insert_repo_into(v, x);
        v.push(last);
    } else {
        v.push(x);
    }
}

/// The repos sorted by name (equal names keep their order).
pub fn sort_repos(repos: Vec<WorkspaceRepo>) -> (r: Vec<WorkspaceRepo>)
    ensures
        r@ == sort_repos_spec(repos@),
        repos_by_name(r@),
        r@.to_multiset() == repos@.to_multiset(),
        forall|n: Seq<char>| #[trigger] named(r@, n) == named(repos@, n),
{
    let ghost all = repos@;
    let mut rest = repos;
    let mut sorted: Vec<WorkspaceRepo> = Vec::new();
    let ghost mut done: int = 0;
    while rest.len() > 0
        invariant
            0 <= done <= all.len(),
            rest@ == all.skip(done),
            sorted@ == sort_repos_spec(all.take(done)),
        decreases rest.len(),
    {
        let b = rest.remove(0);
        proof {
            assert(all.take(done + 1).drop_last() =~= all.take(done));
            assert(all.take(done + 1).last() == all[done]);
            assert(rest@ =~= all.skip(done + 1));
        }
        insert_repo_into(&mut sorted, b);
        proof {
            done = done + 1;
        }
    }
    assert(all.take(done) =~= all);
    proof {
        lemma_sort_repos_orders_by_name(all);
        assert(sorted@ =~= sort_repos_spec(all));
    }
    sorted
}

/// `s` (by name) with `x` put after every (name, path) whose name it does
/// not come before.
/// In name order: no repo's name comes before that of a repo listed
/// ahead of it.
pub open spec fn repos_by_name(s: Seq<WorkspaceRepo>) -> bool {
    forall|i: int, j: int| 0 <= i < j < s.len() ==> !text_less((#[trigger] s[j]).name@, (#[trigger] s[i]).name@)
}

/// The repos of `s` named `n`, in their order.
pub open spec fn named(s: Seq<WorkspaceRepo>, n: Seq<char>) -> Seq<WorkspaceRepo>
    decreases s.len(),
{
    if s.len() == 0 {
        seq![]
    } else {
        named(s.drop_last(), n) + (if s.last().name@ == n {
            seq![s.last()]
        } else {
            seq![]
        })
    }
}

proof fn lemma_insert_repo_keeps_order(s: Seq<WorkspaceRepo>, x: WorkspaceRepo)
    requires
        repos_by_name(s),
    ensures
        repos_by_name(insert_repo(s, x)),
        insert_repo(s, x).len() == s.len() + 1,
        forall|k: int| 0 <= k < insert_repo(s, x).len() ==> (#[trigger] insert_repo(s, x)[k] == x || s.contains(insert_repo(s, x)[k])),
    decreases s.len(),
{
    if s.len() == 0 {
        return;
    }
    let last = s.last();
    let r = insert_repo(s, x);
    if text_less(x.name@, last.name@) {
        let p = s.drop_last();
        assert(repos_by_name(p)) by {
            assert forall|i: int, j: int| 0 <= i < j < p.len() implies !text_less((#[trigger] p[j]).name@, (#[trigger] p[i]).name@) by {
                assert(p[i] == s[i] && p[j] == s[j]);
            }
        }
        lemma_insert_repo_keeps_order(p, x);
        let q = insert_repo(p, x);
        assert(r == q.push(last));
        assert forall|i: int, j: int| 0 <= i < j < r.len() implies !text_less((#[trigger] r[j]).name@, (#[trigger] r[i]).name@) by {
            if j == r.len() - 1 {
                assert(r[j] == last);
                if q[i] == x {
                    lemma_text_order(x.name@, last.name@, last.name@);
                } else {
                    assert(p.contains(q[i]));
                    let k = choose|k: int| 0 <= k < p.len() && p[k] == q[i];
                    assert(s[k] == q[i]);
                    assert(!text_less(s[s.len() - 1].name@, s[k].name@));
                }
            } else {
                assert(r[i] == q[i] && r[j] == q[j]);
            }
        }
        assert forall|k: int| 0 <= k < r.len() implies (#[trigger] r[k] == x || s.contains(r[k])) by {
            if k == r.len() - 1 {
                assert(s[s.len() - 1] == r[k]);
            } else {
                assert(r[k] == q[k]);
                if q[k] != x {
                    let m = choose|m: int| 0 <= m < p.len() && p[m] == q[k];
                    assert(s[m] == q[k]);
                }
            }
        }
    } else {
        assert(r == s.push(x));
        assert forall|i: int, j: int| 0 <= i < j < r.len() implies !text_less((#[trigger] r[j]).name@, (#[trigger] r[i]).name@) by {
            if j == r.len() - 1 {
                assert(r[j] == x);
                if i < s.len() - 1 {
                    assert(!text_less(s[s.len() - 1].name@, s[i].name@));
                    lemma_text_order(x.name@, last.name@, s[i].name@);
                }
            } else {
                assert(r[i] == s[i] && r[j] == s[j]);
            }
        }
        assert forall|k: int| 0 <= k < r.len() implies (#[trigger] r[k] == x || s.contains(r[k])) by {
            if k < s.len() {
                assert(r[k] == s[k]);
            }
        }
    }
}

proof fn lemma_insert_repo_multiset(s: Seq<WorkspaceRepo>, x: WorkspaceRepo)
    ensures
        insert_repo(s, x).to_multiset() == s.to_multiset().insert(x),
    decreases s.len(),
{
    broadcast use vstd::seq_lib::group_to_multiset_ensures;
    if s.len() > 0 && text_less(x.name@, s.last().name@) {
        lemma_insert_repo_multiset(s.drop_last(), x);
        assert(s.drop_last().push(s.last()) =~= s);
        assert(s.to_multiset().insert(x) =~= s.drop_last().to_multiset().insert(x).insert(s.last()));
    } else if s.len() == 0 {
        assert(s.to_multiset() =~= vstd::multiset::Multiset::empty());
    }
}

proof fn lemma_insert_repo_named(s: Seq<WorkspaceRepo>, x: WorkspaceRepo, n: Seq<char>)
    ensures
        named(insert_repo(s, x), n) == named(s, n) + (if x.name@ == n {
            seq![x]
        } else {
            seq![]
        }),
    decreases s.len(),
{
    if s.len() == 0 {
        assert(seq![x].drop_last() =~= Seq::<WorkspaceRepo>::empty());
        assert(named(seq![x], n) =~= named(Seq::<WorkspaceRepo>::empty(), n) + (if x.name@ == n {
            seq![x]
        } else {
            seq![]
        }));
    } else if text_less(x.name@, s.last().name@) {
        lemma_insert_repo_named(s.drop_last(), x, n);
        lemma_text_order(x.name@, x.name@, x.name@);
        let q = insert_repo(s.drop_last(), x);
        assert(q.push(s.last()).drop_last() =~= q);
        assert(named(q.push(s.last()), n) =~= named(s, n) + (if x.name@ == n {
            seq![x]
        } else {
            seq![]
        }));
    } else {
        assert(s.push(x).drop_last() =~= s);
    }
}

/// In name order: no space's name comes before that of a space listed
/// ahead of it.
pub open spec fn spaces_by_name(s: Seq<(String, String)>) -> bool {
    forall|i: int, j: int| 0 <= i < j < s.len() ==> !text_less((#[trigger] s[j]).0@, (#[trigger] s[i]).0@)
}

proof fn lemma_insert_space_keeps_order(s: Seq<(String, String)>, x: (String, String))
    requires
        spaces_by_name(s),
    ensures
        spaces_by_name(insert_space(s, x)),
        insert_space(s, x).to_multiset() == s.to_multiset().insert(x),
    decreases s.len(),
{
    broadcast use vstd::seq_lib::group_to_multiset_ensures;
    if s.len() == 0 {
        assert(s.to_multiset() =~= vstd::multiset::Multiset::empty());
        return;
    }
    let last = s.last();
    let r = insert_space(s, x);
    let p = s.drop_last();
    assert(p.push(last) =~= s);
    if text_less(x.0@, last.0@) {
        assert(spaces_by_name(p)) by {
            assert forall|i: int, j: int| 0 <= i < j < p.len() implies !text_less((#[trigger] p[j]).0@, (#[trigger] p[i]).0@) by {
                assert(p[i] == s[i] && p[j] == s[j]);
            }
        }
        lemma_insert_space_keeps_order(p, x);
        let q = insert_space(p, x);
        assert(r == q.push(last));
        assert(s.to_multiset().insert(x) =~= p.to_multiset().insert(x).insert(last));
        assert forall|i: int, j: int| 0 <= i < j < r.len() implies !text_less((#[trigger] r[j]).0@, (#[trigger] r[i]).0@) by {
            if j == r.len() - 1 {
                assert(r[j] == last);
                assert(q.to_multiset().count(q[i]) > 0);
                if q[i] == x {
                    lemma_text_order(x.0@, last.0@, last.0@);
                } else {
                    assert(p.to_multiset().count(q[i]) > 0);
                    assert(p.contains(q[i]));
                    let k = choose|k: int| 0 <= k < p.len() && p[k] == q[i];
                    assert(s[k] == q[i]);
                    assert(!text_less(s[s.len() - 1].0@, s[k].0@));
                }
            } else {
                assert(r[i] == q[i] && r[j] == q[j]);
            }
        }
    } else {
        assert(r == s.push(x));
        assert forall|i: int, j: int| 0 <= i < j < r.len() implies !text_less((#[trigger] r[j]).0@, (#[trigger] r[i]).0@) by {
            if j == r.len() - 1 {
                assert(r[j] == x);
                if i < s.len() - 1 {
                    assert(!text_less(s[s.len() - 1].0@, s[i].0@));
                    lemma_text_order(x.0@, last.0@, s[i].0@);
                }
            } else {
                assert(r[i] == s[i] && r[j] == s[j]);
            }
        }
    }
}

/// The spaces come out in name order, each space found listed once: the
/// result is a permutation of what the directory read gave.
pub proof fn lemma_spaces_listed_by_name(s: Seq<(String, String)>)
    ensures
        spaces_by_name(sort_spaces_spec(s)),
        sort_spaces_spec(s).to_multiset() == s.to_multiset(),
    decreases s.len(),
{
    broadcast use vstd::seq_lib::group_to_multiset_ensures;
    if s.len() == 0 {
        assert(s.to_multiset() =~= vstd::multiset::Multiset::empty());
        assert(sort_spaces_spec(s).to_multiset() =~= vstd::multiset::Multiset::empty());
    } else {
        lemma_spaces_listed_by_name(s.drop_last());
        lemma_insert_space_keeps_order(sort_spaces_spec(s.drop_last()), s.last());
        assert(s.drop_last().push(s.last()) =~= s);
    }
}

/// `sort_repos` orders the repos by name, keeps repos of one name in the
/// order given, and keeps every repo: the result is a permutation of the
/// input.
pub proof fn lemma_sort_repos_orders_by_name(s: Seq<WorkspaceRepo>)
    ensures
        repos_by_name(sort_repos_spec(s)),
        sort_repos_spec(s).to_multiset() == s.to_multiset(),
        sort_repos_spec(s).len() == s.len(),
        forall|n: Seq<char>| #[trigger] named(sort_repos_spec(s), n) == named(s, n),
    decreases s.len(),
{
    broadcast use vstd::seq_lib::group_to_multiset_ensures;
    if s.len() == 0 {
        assert(s.to_multiset() =~= vstd::multiset::Multiset::empty());
        assert(sort_repos_spec(s).to_multiset() =~= vstd::multiset::Multiset::empty());
    } else {
        let init = s.drop_last();
        lemma_sort_repos_orders_by_name(init);
        lemma_insert_repo_keeps_order(sort_repos_spec(init), s.last());
        lemma_insert_repo_multiset(sort_repos_spec(init), s.last());
        assert(init.push(s.last()) =~= s);
        assert forall|n: Seq<char>| #[trigger] named(sort_repos_spec(s), n) == named(s, n) by {
            lemma_insert_repo_named(sort_repos_spec(init), s.last(), n);
        }
    }
}

pub open spec fn insert_space(s: Seq<(String, String)>, x: (String, String)) -> Seq<(String, String)>
    decreases s.len(),
{
    if s.len() == 0 {
        seq![x]
    } else if text_less(x.0@, s.last().0@) {
        insert_space(s.drop_last(), x).push(s.last())
    } else {
        s.push(x)
    }
}

/// The (name, path) pairs sorted stably by name.
pub open spec fn sort_spaces_spec(s: Seq<(String, String)>) -> Seq<(String, String)>
    decreases s.len(),
{
    if s.len() == 0 {
        seq![]
    } else {
        insert_space(sort_spaces_spec(s.drop_last()), s.last())
    }
}

pub open spec fn pair_text(p: (String, String)) -> (Seq<char>, Seq<char>) {
    (p.0@, p.1@)
}

fn insert_space_into(v: &mut Vec<(String, String)>, x: (String, String))
    ensures
        final(v)@ == insert_space(old(v)@, x),
    decreases old(v)@.len(),
{
    let ghost ov = v@;
    if v.len() == 0 {
        v.push(x);
        assert(v@ =~= seq![x]);
        return;
    }
    if name_lt(&x.0, &v[v.len() - 1].0) {
        let last = v.pop().unwrap();
        assert(v@ =~= ov.drop_last());
        insert_space_into(v, x);
        v.push(last);
    } else {
        v.push(x);
    }
}

/// The spaces found in the workspaces directory, as (name, path), sorted
/// by name (equal names keep their order), each with no repos listed.
pub fn list_spaces(found: Vec<(String, String)>) -> (r: Vec<Workspace>)
    ensures
        r@.len() == found@.len(),
        forall|i: int, j: int| 0 <= i < j < r@.len() ==> !text_less((#[trigger] r@[j]).name@, (#[trigger] r@[i]).name@),
        forall|i: int|
            0 <= i < r@.len() ==> (#[trigger] r@[i]).repos@.len() == 0 && (r@[i].name@, r@[i].path@)
                == pair_text(sort_spaces_spec(found@)[i]),
{
    let ghost all = found@;
    let mut rest = found;
    let mut sorted: Vec<(String, String)> = Vec::new();
    let ghost mut done: int = 0;
    while rest.len() > 0
        invariant
            0 <= done <= all.len(),
            rest@ == all.skip(done),
            sorted@ == sort_spaces_spec(all.take(done)),
        decreases rest.len(),
    {
        let b = rest.remove(0);
        proof {
            assert(all.take(done + 1).drop_last() =~= all.take(done));
            assert(all.take(done + 1).last() == all[done]);
            assert(rest@ =~= all.skip(done + 1));
        }
        insert_space_into(&mut sorted, b);
        proof {
            done = done + 1;
        }
    }
    assert(all.take(done) =~= all);
    proof {
        lemma_sort_spaces_len(all);
    }
    let ghost sv = sorted@;
    let mut out: Vec<Workspace> = Vec::new();
    let mut k: usize = 0;
    while k < sorted.len()
        invariant
            0 <= k <= sorted.len(),
            sorted@ == sv,
            out@.len() == k,
            forall|i: int|
                0 <= i < k ==> (#[trigger] out@[i]).repos@.len() == 0 && (out@[i].name@, out@[i].path@)
                    == pair_text(sv[i]),
        decreases sorted.len() - k,
    {
        let w = Workspace { name: sorted[k].0.clone(), path: sorted[k].1.clone(), repos: Vec::new() };
        out.push(w);
        k = k + 1;
    }
    proof {
        lemma_spaces_listed_by_name(all);
        assert forall|i: int, j: int| 0 <= i < j < out@.len() implies !text_less((#[trigger] out@[j]).name@, (#[trigger] out@[i]).name@) by {
            assert(out@[i].name@ == sv[i].0@);
            assert(out@[j].name@ == sv[j].0@);
        }
    }
    out
}

proof fn lemma_insert_space_len(s: Seq<(String, String)>, x: (String, String))
    ensures
        insert_space(s, x).len() == s.len() + 1,
    decreases s.len(),
{
    if s.len() > 0 {
        lemma_insert_space_len(s.drop_last(), x);
    }
}

proof fn lemma_sort_spaces_len(s: Seq<(String, String)>)
    ensures
        sort_spaces_spec(s).len() == s.len(),
    decreases s.len(),
{
    if s.len() > 0 {
        lemma_sort_spaces_len(s.drop_last());
        lemma_insert_space_len(sort_spaces_spec(s.drop_last()), s.last());
    }
}

/// The directory of the space named `name`, when the name is one plain
/// path component; why not otherwise.
pub fn space_dir(ws_dir: &str, name: &str) -> (r: Result<String, String>)
    ensures
        match plain_component_error(name@) {
            None => r matches Ok(p) && p@ == join(ws_dir@, name@),
            Some(m) => r matches Err(e) && e@ == "invalid space name "@ + debug_str(name@) + ": "@ + m,
        },
        (r is Err && forall|i: int| 0 <= i < name@.len() ==> crate::shown::plain_char(#[trigger] name@[i]))
            ==> (r matches Err(e) && e@ == "invalid space name \""@ + name@ + "\": "@
            + plain_component_error(name@).unwrap()),
{
    checked_space_name(name)?;
    Ok(path_join(ws_dir, name))
}

/// The error for a space that is not there.
pub fn workspace_not_found(name: &str) -> (r: String)
    ensures
        r@ == "workspace '"@ + name@ + "' not found"@,
{
    let mut m = String::from_str("workspace '");
    push_str(&mut m, name);
    push_str(&mut m, "' not found");
    m
}

/// How `space status` words a repo's changes: `clean`, or the three counts.
pub open spec fn status_text_spec(s: RepoStatus) -> Seq<char> {
    if s.modified + s.staged + s.untracked == 0 {
        "clean"@
    } else {
        crate::text::dec(s.modified as nat) + " modified, "@ + crate::text::dec(s.staged as nat)
            + " staged, "@ + crate::text::dec(s.untracked as nat) + " untracked"@
    }
}

/// `clean`, or `M modified, S staged, U untracked`.
pub fn status_text(s: RepoStatus) -> (r: String)
    ensures
        r@ == status_text_spec(s),
{
    if s.modified == 0 && s.staged == 0 && s.untracked == 0 {
        return String::from_str("clean");
    }
    let mut m = String::new();
    crate::text::push_decimal(&mut m, s.modified as u64);
    push_str(&mut m, " modified, ");
    crate::text::push_decimal(&mut m, s.staged as u64);
    push_str(&mut m, " staged, ");
    crate::text::push_decimal(&mut m, s.untracked as u64);
    push_str(&mut m, " untracked");
    m
}

/// Whether `space ls -v` labels a repo modified: something modified or
/// staged (untracked files alone leave it clean).
pub fn shows_modified(s: RepoStatus) -> (r: bool)
    ensures
        r == (s.modified + s.staged > 0),
{
    s.modified > 0 || s.staged > 0
}

/// The first space named `name`.
pub fn find_space(spaces: &[Workspace], name: &str) -> (r: Option<usize>)
    ensures
        r matches Some(i) ==> i < spaces@.len() && spaces@[i as int].name@ == name@ && forall|j: int|
            0 <= j < i ==> #[trigger] spaces@[j].name@ != name@,
        r is None ==> forall|j: int| 0 <= j < spaces@.len() ==> #[trigger] spaces@[j].name@ != name@,
{
    let mut i: usize = 0;
    while i < spaces.len()
        invariant
            0 <= i <= spaces.len(),
            forall|j: int| 0 <= j < i ==> #[trigger] spaces@[j].name@ != name@,
        decreases spaces.len() - i,
    {
        if crate::text::same_text(spaces[i].name.as_str(), name) {
            return Some(i);
        }
        i = i + 1;
    }
    None
}

} // verus!
