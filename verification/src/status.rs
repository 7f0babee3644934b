//! What a repo's git state reads as: file counts, the branch list, the
//! changed files with their line counts, and one file's diff. The caller
//! asks git (libgit2) and hands over what it answered as plain values.
use crate::text::{chars_of, dec, ends_with, push_decimal, push_str, same_text, slice_range, string_of, strings_view};
use vstd::prelude::*;

verus! {

/// Which changes one status entry carries (libgit2's status bits).
#[derive(Debug, Clone, Copy)]
pub struct StatusFlags {
    pub index_new: bool,
    pub index_modified: bool,
    pub index_deleted: bool,
    pub index_renamed: bool,
    pub wt_new: bool,
    pub wt_modified: bool,
    pub wt_deleted: bool,
    pub wt_renamed: bool,
}

/// How many files are modified, staged and untracked.
#[derive(Debug, Clone, Copy)]
pub struct RepoStatus {
    pub modified: usize,
    pub staged: usize,
    pub untracked: usize,
}

pub open spec fn is_staged(f: StatusFlags) -> bool {
    f.index_new || f.index_modified || f.index_deleted || f.index_renamed
}

pub open spec fn is_modified(f: StatusFlags) -> bool {
    f.wt_modified || f.wt_deleted || f.wt_renamed
}

/// How many of `fs` satisfy `p`.
pub open spec fn count_where(fs: Seq<StatusFlags>, p: spec_fn(StatusFlags) -> bool) -> nat
    decreases fs.len(),
{
    if fs.len() == 0 {
        0
    } else {
        count_where(fs.drop_last(), p) + (if p(fs.last()) {
            1nat
        } else {
            0nat
        })
    }
}

pub open spec fn staged_pred() -> spec_fn(StatusFlags) -> bool {
    |f: StatusFlags| is_staged(f)
}

pub open spec fn modified_pred() -> spec_fn(StatusFlags) -> bool {
    |f: StatusFlags| is_modified(f)
}

pub open spec fn untracked_pred() -> spec_fn(StatusFlags) -> bool {
    |f: StatusFlags| f.wt_new
}

proof fn lemma_count_bound(fs: Seq<StatusFlags>, p: spec_fn(StatusFlags) -> bool)
    ensures
        count_where(fs, p) <= fs.len(),
    decreases fs.len(),
{
    if fs.len() > 0 {
        lemma_count_bound(fs.drop_last(), p);
    }
}

/// Count the entries with a staged change (new, modified, deleted or
/// renamed in the index), with an unstaged change to a tracked file
/// (modified, deleted or renamed in the worktree), and untracked.
pub fn tally_status(flags: &[StatusFlags]) -> (r: RepoStatus)
    ensures
        r.staged == count_where(flags@, staged_pred()),
        r.modified == count_where(flags@, modified_pred()),
        r.untracked == count_where(flags@, untracked_pred()),
{
    let mut r = RepoStatus { modified: 0, staged: 0, untracked: 0 };
    let mut i: usize = 0;
    while i < flags.len()
        invariant
            0 <= i <= flags.len(),
            r.staged == count_where(flags@.subrange(0, i as int), staged_pred()),
            r.modified == count_where(flags@.subrange(0, i as int), modified_pred()),
            r.untracked == count_where(flags@.subrange(0, i as int), untracked_pred()),
        decreases flags.len() - i,
    {
        let ghost pre = flags@.subrange(0, i as int);
        proof {
            assert(flags@.subrange(0, i + 1).drop_last() =~= pre);
            lemma_count_bound(pre, staged_pred());
            lemma_count_bound(pre, modified_pred());
            lemma_count_bound(pre, untracked_pred());
        }
        let f = flags[i];
        if f.index_new || f.index_modified || f.index_deleted || f.index_renamed {
            r.staged = r.staged + 1;
        }
        if f.wt_modified || f.wt_deleted || f.wt_renamed {
            r.modified = r.modified + 1;
        }
        if f.wt_new {
            r.untracked = r.untracked + 1;
        }
        i = i + 1;
    }
    assert(flags@.subrange(0, i as int) =~= flags@);
    r
}

/// A branch as libgit2 lists it.
/// Each entry counts once per kind it shows: as staged when any index flag
/// (new, modified, deleted, renamed) is set, as modified when the worktree
/// copy is modified, deleted or renamed, as untracked when it is new in the
/// worktree; one entry more adds at most one to each count.
pub proof fn lemma_tally_counts_each_entry_by_its_flags(fs: Seq<StatusFlags>, f: StatusFlags)
    ensures
        count_where(fs.push(f), staged_pred()) == count_where(fs, staged_pred()) + (if f.index_new
            || f.index_modified || f.index_deleted || f.index_renamed {
            1int
        } else {
            0int
        }),
        count_where(fs.push(f), modified_pred()) == count_where(fs, modified_pred()) + (if f.wt_modified
            || f.wt_deleted || f.wt_renamed {
            1int
        } else {
            0int
        }),
        count_where(fs.push(f), untracked_pred()) == count_where(fs, untracked_pred()) + (if f.wt_new {
            1int
        } else {
            0int
        }),
        count_where(seq![], staged_pred()) == 0,
        count_where(seq![], modified_pred()) == 0,
        count_where(seq![], untracked_pred()) == 0,
{
    assert(fs.push(f).drop_last() =~= fs);
}

#[derive(Debug, Clone)]
pub struct RawBranch {
    /// Its short name, or `None` when it is not valid UTF-8.
    pub name: Option<String>,
    pub is_remote: bool,
    /// The commit time of its tip, in seconds (0 when it has none).
    pub last_commit_time: i64,
}

/// A branch as the app lists it.
#[derive(Debug, Clone)]
pub struct BranchInfo {
    pub name: String,
    pub is_remote: bool,
    pub is_current: bool,
    pub last_commit_time: i64,
}

/// `str`'s order: lexicographic by char (which is the order of the UTF-8
/// bytes).
pub open spec fn text_less(a: Seq<char>, b: Seq<char>) -> bool
    decreases a.len(),
{
    if a.len() == 0 {
        b.len() > 0
    } else if b.len() == 0 {
        false
    } else if a[0] != b[0] {
        (a[0] as u32) < (b[0] as u32)
    } else {
        text_less(a.drop_first(), b.drop_first())
    }
}

fn text_lt(x: &Vec<char>, y: &Vec<char>) -> (r: bool)
    ensures
        r == text_less(x@, y@),
{
    let mut i: usize = 0;
    assert(x@.skip(0) =~= x@);
    assert(y@.skip(0) =~= y@);
    while i < x.len() && i < y.len() && x[i] == y[i]
        invariant
            0 <= i <= x.len(),
            i <= y.len(),
            text_less(x@, y@) == text_less(x@.skip(i as int), y@.skip(i as int)),
        decreases x.len() - i,
    {
        proof {
            assert(x@.skip(i as int).drop_first() =~= x@.skip(i + 1));
            assert(y@.skip(i as int).drop_first() =~= y@.skip(i + 1));
        }
        i = i + 1;
    }
    proof {
        if i < x.len() && i < y.len() {
            assert(x@.skip(i as int)[0] == x@[i as int]);
            assert(y@.skip(i as int)[0] == y@[i as int]);
        }
    }
    if i == x.len() {
        i < y.len()
    } else if i == y.len() {
        false
    } else {
        (x[i] as u32) < (y[i] as u32)
    }
}

/// The listing order: local branches before remote ones, each by name.
pub open spec fn branch_before(a: BranchInfo, b: BranchInfo) -> bool {
    (!a.is_remote && b.is_remote) || (a.is_remote == b.is_remote && text_less(a.name@, b.name@))
}

/// `s` (in listing order) with `x` put after every branch it does not come
/// before: one step of a stable sort.
pub open spec fn insert_branch(s: Seq<BranchInfo>, x: BranchInfo) -> Seq<BranchInfo>
    decreases s.len(),
{
    if s.len() == 0 {
        seq![x]
    } else if branch_before(x, s.last()) {
        insert_branch(s.drop_last(), x).push(s.last())
    } else {
        s.push(x)
    }
}

/// The branches libgit2 listed that are kept (a UTF-8 name, not a
/// remote's `HEAD`), marked current when named like HEAD's branch, in the
/// order listed.
pub open spec fn kept_branches(raw: Seq<RawBranch>, head: Option<Seq<char>>) -> Seq<BranchInfo>
    decreases raw.len(),
{
    if raw.len() == 0 {
        seq![]
    } else {
        kept_branches(raw.drop_last(), head) + match raw.last().name {
            Some(n) => if n@.len() >= 5 && n@.subrange(n@.len() - 5, n@.len() as int) == "/HEAD"@ {
                seq![]
            } else {
                seq![
                    BranchInfo {
                        name: n,
                        is_remote: raw.last().is_remote,
                        is_current: head == Some(n@),
                        last_commit_time: raw.last().last_commit_time,
                    },
                ]
            },
            None => seq![],
        }
    }
}

/// `s` sorted stably into listing order.
pub open spec fn sort_branches(s: Seq<BranchInfo>) -> Seq<BranchInfo>
    decreases s.len(),
{
    if s.len() == 0 {
        seq![]
    } else {
        insert_branch(sort_branches(s.drop_last()), s.last())
    }
}

fn insert_branch_into(v: &mut Vec<BranchInfo>, x: BranchInfo)
    ensures
        final(v)@ == insert_branch(old(v)@, x),
    decreases old(v)@.len(),
{
    let ghost ov = v@;
    if v.len() == 0 {
        v.push(x);
        assert(v@ =~= seq![x]);
        return;
    }
    let xn = chars_of(x.name.as_str());
    let ln = chars_of(v[v.len() - 1].name.as_str());
    let before = (!x.is_remote && v[v.len() - 1].is_remote) || (x.is_remote == v[v.len()
        - 1].is_remote && text_lt(&xn, &ln));
    if before {
        let last = v.pop().unwrap();
        assert(v@ =~= ov.drop_last());
        insert_branch_into(v, x);
        v.push(last);
    } else {
        v.push(x);
    }
}

/// The branches libgit2 listed, as the app lists them: without the
/// remotes' `HEAD`s and names that are not UTF-8, the one HEAD is on
/// marked current, local before remote, each by name.
pub fn branch_list(raw: &[RawBranch], head: Option<&str>) -> (r: Vec<BranchInfo>)
    ensures
        r@ == sort_branches(
            kept_branches(
                raw@,
                match head {
                    Some(h) => Some(h@),
                    None => None,
                },
            ),
        ),
{
    let ghost hv = match head {
        Some(h) => Some(h@),
        None => None::<Seq<char>>,
    };
    let mut sorted: Vec<BranchInfo> = Vec::new();
    let mut i: usize = 0;
    while i < raw.len()
        invariant
            0 <= i <= raw.len(),
            hv == (match head {
                Some(h) => Some(h@),
                None => None::<Seq<char>>,
            }),
            sorted@ == sort_branches(kept_branches(raw@.subrange(0, i as int), hv)),
        decreases raw.len() - i,
    {
        proof {
            assert(raw@.subrange(0, i + 1).drop_last() =~= raw@.subrange(0, i as int));
        }
        let ghost old_spec = kept_branches(raw@.subrange(0, i as int), hv);
        match &raw[i].name {
            Some(n) => {
                let v = chars_of(n.as_str());
                let suffix = chars_of("/HEAD");
                proof {
                    reveal_strlit("/HEAD");
                }
                let remote_head = ends_with(&v, &suffix);
                if !remote_head {
                    let current = match head {
                        Some(h) => same_text(h, n.as_str()),
                        None => false,
                    };
                    let b = BranchInfo {
                        name: n.clone(),
                        is_remote: raw[i].is_remote,
                        is_current: current,
                        last_commit_time: raw[i].last_commit_time,
                    };
                    assert(kept_branches(raw@.subrange(0, i + 1), hv) =~= old_spec.push(b));
                    assert(old_spec.push(b).drop_last() =~= old_spec);
                    insert_branch_into(&mut sorted, b);
                } else {
                    assert(kept_branches(raw@.subrange(0, i + 1), hv) =~= old_spec);
                }
            },
            None => {
                assert(kept_branches(raw@.subrange(0, i + 1), hv) =~= old_spec);
            },
        }
        i = i + 1;
    }
    assert(raw@.subrange(0, i as int) =~= raw@);
    sorted
}

/// `s` (newest first) with `x` put after every branch at least as recent:
/// one step of a stable sort by commit time, newest first.
pub open spec fn insert_recent(s: Seq<BranchInfo>, x: BranchInfo) -> Seq<BranchInfo>
    decreases s.len(),
{
    if s.len() == 0 {
        seq![x]
    } else if x.last_commit_time > s.last().last_commit_time {
        insert_recent(s.drop_last(), x).push(s.last())
    } else {
        s.push(x)
    }
}

pub open spec fn sort_recent(s: Seq<BranchInfo>) -> Seq<BranchInfo>
    decreases s.len(),
{
    if s.len() == 0 {
        seq![]
    } else {
        insert_recent(sort_recent(s.drop_last()), s.last())
    }
}

fn insert_recent_into(v: &mut Vec<BranchInfo>, x: BranchInfo)
    ensures
        final(v)@ == insert_recent(old(v)@, x),
    decreases old(v)@.len(),
{
    let ghost ov = v@;
    if v.len() == 0 {
        v.push(x);
        assert(v@ =~= seq![x]);
        return;
    }
    if x.last_commit_time > v[v.len() - 1].last_commit_time {
        let last = v.pop().unwrap();
        assert(v@ =~= ov.drop_last());
        insert_recent_into(v, x);
        v.push(last);
    } else {
        v.push(x);
    }
}

/// The `limit` most recently committed-to branches, newest first (ties in
/// listing order).
pub fn recent_branches(branches: Vec<BranchInfo>, limit: usize) -> (r: Vec<BranchInfo>)
    ensures
        r@ == sort_recent(branches@).take(
            if limit < branches@.len() {
                limit as int
            } else {
                branches@.len() as int
            },
        ),
        r@.len() == (if limit < branches@.len() {
            limit as int
        } else {
            branches@.len() as int
        }),
        newest_first(r@),
        (r@ + sort_recent(branches@).skip(r@.len() as int)).to_multiset() == branches@.to_multiset(),
        forall|i: int, j: int|
            0 <= i < r@.len() && 0 <= j < sort_recent(branches@).skip(r@.len() as int).len() ==> (
            #[trigger] sort_recent(branches@).skip(r@.len() as int)[j]).last_commit_time
                <= (#[trigger] r@[i]).last_commit_time,
        forall|t: i64| #[trigger] at_time(r@, t) == at_time(branches@, t).take(at_time(r@, t).len() as int),
{
    let ghost all = branches@;
    let mut rest = branches;
    let mut sorted: Vec<BranchInfo> = Vec::new();
    let ghost mut done: int = 0;
    while rest.len() > 0
        invariant
            0 <= done <= all.len(),
            rest@ == all.skip(done),
            sorted@ == sort_recent(all.take(done)),
        decreases rest.len(),
    {
        let b = rest.remove(0);
        proof {
            assert(all.take(done + 1).drop_last() =~= all.take(done));
            assert(all.take(done + 1).last() == all[done]);
            assert(rest@ =~= all.skip(done + 1));
        }
        insert_recent_into(&mut sorted, b);
        proof {
            done = done + 1;
        }
    }
    assert(all.take(done) =~= all);
    proof {
        lemma_sort_recent_len(all);
    }
    let ghost full = sorted@;
    sorted.truncate(limit);
    proof {
        let n = sorted@.len() as int;
        assert(sorted@ =~= full.take(n));
        lemma_recent_branches_keep_the_newest(all, n);
        lemma_sort_recent_multiset(all);
        assert(sorted@ + full.skip(n) =~= full);
        assert forall|i: int, j: int| 0 <= i < j < sorted@.len() implies #[trigger] sorted@[i].last_commit_time
            >= #[trigger] sorted@[j].last_commit_time by {
            assert(sorted@[i] == full[i] && sorted@[j] == full[j]);
        }
        assert forall|i: int, j: int|
            0 <= i < n && 0 <= j < full.skip(n).len() implies (#[trigger] full.skip(n)[j]).last_commit_time
                <= (#[trigger] sorted@[i]).last_commit_time by {
            assert(full.skip(n)[j] == full[n + j]);
            assert(sorted@[i] == full[i]);
        }
        assert forall|t: i64| #[trigger] at_time(sorted@, t) == at_time(all, t).take(at_time(sorted@, t).len() as int) by {
            lemma_sort_recent_at_time(all, t);
            lemma_at_time_take(full, n, t);
        }
    }
    sorted
}

/// The branches of `s` last committed to at time `t`, in their order.
pub open spec fn at_time(s: Seq<BranchInfo>, t: i64) -> Seq<BranchInfo>
    decreases s.len(),
{
    if s.len() == 0 {
        seq![]
    } else {
        at_time(s.drop_last(), t) + (if s.last().last_commit_time == t {
            seq![s.last()]
        } else {
            seq![]
        })
    }
}

proof fn lemma_sort_recent_multiset(s: Seq<BranchInfo>)
    ensures
        sort_recent(s).to_multiset() == s.to_multiset(),
    decreases s.len(),
{
    broadcast use vstd::seq_lib::group_to_multiset_ensures;
    if s.len() > 0 {
        lemma_sort_recent_multiset(s.drop_last());
        lemma_insert_recent_multiset(sort_recent(s.drop_last()), s.last());
        assert(s.drop_last().push(s.last()) =~= s);
    } else {
        assert(s.to_multiset() =~= vstd::multiset::Multiset::empty());
    }
}

proof fn lemma_insert_recent_multiset(s: Seq<BranchInfo>, x: BranchInfo)
    ensures
        insert_recent(s, x).to_multiset() == s.to_multiset().insert(x),
    decreases s.len(),
{
    broadcast use vstd::seq_lib::group_to_multiset_ensures;
    if s.len() > 0 && x.last_commit_time > s.last().last_commit_time {
        lemma_insert_recent_multiset(s.drop_last(), x);
        assert(s.drop_last().push(s.last()) =~= s);
        assert(s.to_multiset().insert(x) =~= s.drop_last().to_multiset().insert(x).insert(s.last()));
    } else if s.len() == 0 {
        assert(s.to_multiset() =~= vstd::multiset::Multiset::empty());
    }
}

proof fn lemma_insert_recent_at_time(s: Seq<BranchInfo>, x: BranchInfo, t: i64)
    ensures
        at_time(insert_recent(s, x), t) == at_time(s, t) + (if x.last_commit_time == t {
            seq![x]
        } else {
            seq![]
        }),
    decreases s.len(),
{
    if s.len() == 0 {
        assert(seq![x].drop_last() =~= Seq::<BranchInfo>::empty());
        assert(at_time(seq![x], t) =~= at_time(Seq::<BranchInfo>::empty(), t) + (if x.last_commit_time == t {
            seq![x]
        } else {
            seq![]
        }));
    } else if x.last_commit_time > s.last().last_commit_time {
        lemma_insert_recent_at_time(s.drop_last(), x, t);
        let q = insert_recent(s.drop_last(), x);
        assert(q.push(s.last()).drop_last() =~= q);
        assert(at_time(q.push(s.last()), t) =~= at_time(s, t) + (if x.last_commit_time == t {
            seq![x]
        } else {
            seq![]
        }));
    } else {
        assert(s.push(x).drop_last() =~= s);
    }
}

proof fn lemma_sort_recent_at_time(s: Seq<BranchInfo>, t: i64)
    ensures
        at_time(sort_recent(s), t) == at_time(s, t),
    decreases s.len(),
{
    if s.len() > 0 {
        lemma_sort_recent_at_time(s.drop_last(), t);
        lemma_insert_recent_at_time(sort_recent(s.drop_last()), s.last(), t);
    }
}

proof fn lemma_at_time_take(s: Seq<BranchInfo>, n: int, t: i64)
    requires
        0 <= n <= s.len(),
    ensures
        at_time(s.take(n), t).len() <= at_time(s, t).len(),
        at_time(s.take(n), t) == at_time(s, t).take(at_time(s.take(n), t).len() as int),
    decreases s.len(),
{
    if n == s.len() {
        assert(s.take(n) =~= s);
        assert(at_time(s, t).take(at_time(s, t).len() as int) =~= at_time(s, t));
    } else {
        lemma_at_time_take(s.drop_last(), n, t);
        assert(s.drop_last().take(n) =~= s.take(n));
        let a = at_time(s.drop_last(), t);
        let k = at_time(s.take(n), t).len() as int;
        assert((a + (if s.last().last_commit_time == t {
            seq![s.last()]
        } else {
            seq![]
        })).take(k) =~= a.take(k));
    }
}

proof fn lemma_insert_recent_len(s: Seq<BranchInfo>, x: BranchInfo)
    ensures
        insert_recent(s, x).len() == s.len() + 1,
    decreases s.len(),
{
    if s.len() > 0 {
        lemma_insert_recent_len(s.drop_last(), x);
    }
}

proof fn lemma_sort_recent_len(s: Seq<BranchInfo>)
    ensures
        sort_recent(s).len() == s.len(),
    decreases s.len(),
{
    if s.len() > 0 {
        lemma_sort_recent_len(s.drop_last());
        lemma_insert_recent_len(sort_recent(s.drop_last()), s.last());
    }
}

/// What HEAD reads as: the branch's short name (`HEAD` when it has none),
/// or the first eight hex digits of the commit in brackets when detached.
pub open spec fn head_label_spec(is_branch: bool, shorthand: Option<Seq<char>>, oid_hex: Seq<char>) -> Seq<char> {
    if is_branch {
        match shorthand {
            Some(s) => s,
            None => "HEAD"@,
        }
    } else {
        "("@ + oid_hex.take(8) + ")"@
    }
}

/// The current branch's name, or the short commit id for a detached HEAD.
pub fn head_label(is_branch: bool, shorthand: Option<&str>, oid_hex: &str) -> (r: String)
    requires
        oid_hex@.len() >= 8,
    ensures
        r@ == head_label_spec(
            is_branch,
            match shorthand {
                Some(s) => Some(s@),
                None => None,
            },
            oid_hex@,
        ),
{
    if is_branch {
        match shorthand {
            Some(s) => String::from_str(s),
            None => String::from_str("HEAD"),
        }
    } else {
        let v = chars_of(oid_hex);
        let short = slice_range(&v, 0, 8);
        let mut m = String::from_str("(");
        push_str(&mut m, string_of(&short).as_str());
        push_str(&mut m, ")");
        assert(short@ =~= oid_hex@.take(8));
        m
    }
}

/// The default branch: HEAD's short name, else `main`.
pub fn base_branch_name(head_shorthand: Option<&str>) -> (r: String)
    ensures
        r@ == (match head_shorthand {
            Some(s) => s@,
            None => "main"@,
        }),
{
    match head_shorthand {
        Some(s) => String::from_str(s),
        None => String::from_str("main"),
    }
}

/// A delta's kind as libgit2 reports it.
#[derive(Debug, Clone, Copy, PartialEq, Eq)]
pub enum DeltaKind {
    Unmodified,
    Added,
    Deleted,
    Modified,
    Renamed,
    Copied,
    Ignored,
    Untracked,
    Typechange,
    Unreadable,
    Conflicted,
}

/// A changed file's status as the app shows it.
#[derive(Debug, Clone, Copy, PartialEq, Eq)]
pub enum FileStatus {
    Modified,
    Added,
    Deleted,
    Renamed,
    Copied,
    Untracked,
}

pub open spec fn file_status_of(d: DeltaKind) -> Option<FileStatus> {
    match d {
        DeltaKind::Modified => Some(FileStatus::Modified),
        DeltaKind::Added => Some(FileStatus::Added),
        DeltaKind::Deleted => Some(FileStatus::Deleted),
        DeltaKind::Renamed => Some(FileStatus::Renamed),
        DeltaKind::Copied => Some(FileStatus::Copied),
        DeltaKind::Untracked => Some(FileStatus::Untracked),
        _ => None,
    }
}

/// The status shown for a delta of this kind; none for the kinds the app
/// does not list.
pub fn delta_to_file_status(d: DeltaKind) -> (r: Option<FileStatus>)
    ensures
        r == file_status_of(d),
{
    match d {
        DeltaKind::Modified => Some(FileStatus::Modified),
        DeltaKind::Added => Some(FileStatus::Added),
        DeltaKind::Deleted => Some(FileStatus::Deleted),
        DeltaKind::Renamed => Some(FileStatus::Renamed),
        DeltaKind::Copied => Some(FileStatus::Copied),
        DeltaKind::Untracked => Some(FileStatus::Untracked),
        _ => None,
    }
}

/// One delta of a diff: the path it is listed under (the new file's, else
/// the old file's, when that is UTF-8), each side's path as UTF-8 text, its
/// kind.
#[derive(Debug, Clone)]
pub struct DeltaFacts {
    pub shown_path: Option<String>,
    pub new_path: Option<String>,
    pub old_path: Option<String>,
    pub kind: DeltaKind,
}

/// One line of a diff, in the order libgit2 walks them: the path its delta
/// is listed under, and its origin (`+`, `-`, ` ` ...).
#[derive(Debug, Clone)]
pub struct LineFacts {
    pub shown_path: Option<String>,
    pub origin: char,
}

/// A changed file with its line counts.
#[derive(Debug, Clone)]
pub struct FileEntry {
    pub path: String,
    pub status: FileStatus,
    pub staged: bool,
    pub insertions: usize,
    pub deletions: usize,
}

/// The files a diff lists, each once per delta that has a path and a
/// listed status, in delta order.
pub open spec fn listed_files(deltas: Seq<DeltaFacts>) -> Seq<(Seq<char>, FileStatus)>
    decreases deltas.len(),
{
    if deltas.len() == 0 {
        seq![]
    } else {
        listed_files(deltas.drop_last()) + match (deltas.last().shown_path, file_status_of(
            deltas.last().kind,
        )) {
            (Some(p), Some(st)) => seq![(p@, st)],
            _ => seq![],
        }
    }
}

/// The first listed file with path `p`.
pub open spec fn first_listed(files: Seq<(Seq<char>, FileStatus)>, p: Seq<char>) -> Option<int>
    decreases files.len(),
{
    if files.len() == 0 {
        None
    } else {
        match first_listed(files.drop_last(), p) {
            Some(k) => Some(k),
            None => if files.last().0 == p {
                Some(files.len() - 1)
            } else {
                None
            },
        }
    }
}

/// The (insertions, deletions) of each listed file after the first `n`
/// lines: each `+` line counts for the first file listed under its path,
/// each `-` line likewise.
pub open spec fn counts_upto(files: Seq<(Seq<char>, FileStatus)>, lines: Seq<LineFacts>, n: int) -> Seq<
    (nat, nat),
>
    decreases n,
{
    if n <= 0 {
        Seq::new(files.len(), |k: int| (0nat, 0nat))
    } else {
        let c = counts_upto(files, lines, n - 1);
        let l = lines[n - 1];
        match l.shown_path {
            Some(p) => match first_listed(files, p@) {
                Some(k) => if l.origin == '+' {
                    c.update(k, (c[k].0 + 1, c[k].1))
                } else if l.origin == '-' {
                    c.update(k, (c[k].0, c[k].1 + 1))
                } else {
                    c
                },
                None => c,
            },
            None => c,
        }
    }
}

pub open spec fn entry_view(e: FileEntry) -> (Seq<char>, FileStatus, bool, nat, nat) {
    (e.path@, e.status, e.staged, e.insertions as nat, e.deletions as nat)
}

/// The entries of a diff: each listed file with its counts.
pub open spec fn entries_spec(deltas: Seq<DeltaFacts>, lines: Seq<LineFacts>, staged: bool) -> Seq<
    (Seq<char>, FileStatus, bool, nat, nat),
> {
    let files = listed_files(deltas);
    let c = counts_upto(files, lines, lines.len() as int);
    Seq::new(files.len(), |k: int| (files[k].0, files[k].1, staged, c[k].0, c[k].1))
}

proof fn lemma_first_listed(files: Seq<(Seq<char>, FileStatus)>, p: Seq<char>)
    ensures
        first_listed(files, p) matches Some(k) ==> 0 <= k < files.len() && files[k].0 == p,
        first_listed(files, p) is None ==> forall|k: int| 0 <= k < files.len() ==> #[trigger] files[k].0 != p,
    decreases files.len(),
{
    if files.len() > 0 {
        lemma_first_listed(files.drop_last(), p);
        if first_listed(files, p) is None {
            assert forall|k: int| 0 <= k < files.len() implies #[trigger] files[k].0 != p by {
                if k < files.len() - 1 {
                    assert(files.drop_last()[k] == files[k]);
                }
            }
        }
    }
}

proof fn lemma_counts_shape(files: Seq<(Seq<char>, FileStatus)>, lines: Seq<LineFacts>, n: int)
    requires
        0 <= n <= lines.len(),
    ensures
        counts_upto(files, lines, n).len() == files.len(),
        forall|k: int| 0 <= k < files.len() ==> #[trigger] counts_upto(files, lines, n)[k].0 <= n && counts_upto(files, lines, n)[k].1 <= n,
    decreases n,
{
    if n > 0 {
        lemma_counts_shape(files, lines, n - 1);
        let c = counts_upto(files, lines, n - 1);
        let l = lines[n - 1];
        if let Some(p) = l.shown_path {
            lemma_first_listed(files, p@);
        }
        assert forall|k: int| 0 <= k < files.len() implies #[trigger] counts_upto(files, lines, n)[k].0
            <= n && counts_upto(files, lines, n)[k].1 <= n by {
            assert(c[k].0 <= n - 1 && c[k].1 <= n - 1);
        }
    }
}

/// The running counts `ins` and `del` are the spec's counts `c`.
pub open spec fn agrees(ins: Seq<usize>, del: Seq<usize>, c: Seq<(nat, nat)>) -> bool {
    ins.len() == c.len() && del.len() == c.len() && forall|j: int|
        0 <= j < c.len() ==> ins[j] == #[trigger] c[j].0 && del[j] == c[j].1
}

proof fn lemma_agrees_ins(ins: Seq<usize>, del: Seq<usize>, c: Seq<(nat, nat)>, k: int, v: usize)
    requires
        agrees(ins, del, c),
        0 <= k < c.len(),
        v == c[k].0 + 1,
    ensures
        agrees(ins.update(k, v), del, c.update(k, (c[k].0 + 1, c[k].1))),
{
}

proof fn lemma_agrees_del(ins: Seq<usize>, del: Seq<usize>, c: Seq<(nat, nat)>, k: int, v: usize)
    requires
        agrees(ins, del, c),
        0 <= k < c.len(),
        v == c[k].1 + 1,
    ensures
        agrees(ins, del.update(k, v), c.update(k, (c[k].0, c[k].1 + 1))),
{
}

pub open spec fn files_view(v: Seq<(String, FileStatus)>) -> Seq<(Seq<char>, FileStatus)> {
    v.map_values(|f: (String, FileStatus)| (f.0@, f.1))
}

fn position_of(files: &Vec<(String, FileStatus)>, p: &str) -> (r: Option<usize>)
    ensures
        r matches Some(i) ==> first_listed(files_view(files@), p@) == Some(i as int),
        r is None ==> first_listed(files_view(files@), p@) is None,
{
    let ghost fv = files_view(files@);
    let mut i: usize = 0;
    proof {
        lemma_first_listed(fv, p@);
    }
    while i < files.len()
        invariant
            0 <= i <= files.len(),
            fv == files_view(files@),
            forall|k: int| 0 <= k < i ==> fv[k].0 != p@,
        decreases files.len() - i,
    {
        if same_text(files[i].0.as_str(), p) {
            proof {
                assert(fv[i as int].0 == p@);
                lemma_first_before(fv, p@, i as int);
            }
            return Some(i);
        }
        i = i + 1;
    }
    proof {
        lemma_first_none(fv, p@);
    }
    None
}

proof fn lemma_first_before(files: Seq<(Seq<char>, FileStatus)>, p: Seq<char>, i: int)
    requires
        0 <= i < files.len(),
        files[i].0 == p,
        forall|k: int| 0 <= k < i ==> files[k].0 != p,
    ensures
        first_listed(files, p) == Some(i),
    decreases files.len(),
{
    if i < files.len() - 1 {
        lemma_first_before(files.drop_last(), p, i);
    } else {
        lemma_first_none(files.drop_last(), p);
    }
}

proof fn lemma_first_none(files: Seq<(Seq<char>, FileStatus)>, p: Seq<char>)
    requires
        forall|k: int| 0 <= k < files.len() ==> files[k].0 != p,
    ensures
        first_listed(files, p) is None,
    decreases files.len(),
{
    if files.len() > 0 {
        lemma_first_none(files.drop_last(), p);
    }
}

/// The changed files of a diff with their line counts: every delta with a
/// path and a listed status, in order, each with the `+` and `-` lines
/// counted against the first file listed under their path.
pub fn collect_entries(deltas: &[DeltaFacts], lines: &[LineFacts], staged: bool) -> (r: Vec<FileEntry>)
    ensures
        r@.map_values(|e: FileEntry| entry_view(e)) == entries_spec(deltas@, lines@, staged),
{
    let mut files: Vec<(String, FileStatus)> = Vec::new();
    let mut i: usize = 0;
    while i < deltas.len()
        invariant
            0 <= i <= deltas.len(),
            files_view(files@) == listed_files(deltas@.subrange(0, i as int)),
        decreases deltas.len() - i,
    {
        proof {
            assert(deltas@.subrange(0, i + 1).drop_last() =~= deltas@.subrange(0, i as int));
        }
        let ghost old_f = files_view(files@);
        let d = &deltas[i];
        match (&d.shown_path, delta_to_file_status(d.kind)) {
            (Some(p), Some(st)) => {
                files.push((p.clone(), st));
                assert(files_view(files@) =~= old_f.push((p@, st)));
            },
            _ => {
                assert(listed_files(deltas@.subrange(0, i + 1)) =~= old_f);
            },
        }
        i = i + 1;
    }
    assert(deltas@.subrange(0, i as int) =~= deltas@);
    let ghost fv = files_view(files@);
    let mut ins: Vec<usize> = Vec::new();
    let mut del: Vec<usize> = Vec::new();
    let mut k: usize = 0;
    while k < files.len()
        invariant
            0 <= k <= files.len(),
            ins@.len() == k,
            del@.len() == k,
            forall|j: int| 0 <= j < k ==> ins@[j] == 0 && del@[j] == 0,
        decreases files.len() - k,
    {
        ins.push(0);
        del.push(0);
        k = k + 1;
    }
    let mut n: usize = 0;
    while n < lines.len()
        invariant
            0 <= n <= lines.len(),
            fv == files_view(files@),
            fv.len() == files@.len(),
            ins@.len() == files@.len(),
            del@.len() == files@.len(),
            fv == listed_files(deltas@),
            counts_upto(fv, lines@, n as int).len() == files@.len(),
            forall|j: int| 0 <= j < files@.len() ==> ins@[j] == #[trigger] counts_upto(fv, lines@, n as int)[j].0
                && del@[j] == counts_upto(fv, lines@, n as int)[j].1,
        decreases lines.len() - n,
    {
        proof {
            lemma_counts_shape(fv, lines@, n as int);
            lemma_counts_shape(fv, lines@, n + 1);
        }
        let ghost c = counts_upto(fv, lines@, n as int);
        let ghost c2 = counts_upto(fv, lines@, n + 1);
        let ghost old_ins = ins@;
        let ghost old_del = del@;
        assert forall|j: int| 0 <= j < files@.len() implies old_ins[j] == #[trigger] c[j].0 && old_del[j]
            == c[j].1 by {
            assert(ins@[j] == counts_upto(fv, lines@, n as int)[j].0);
        }
        assert(agrees(old_ins, old_del, c));
        let l = &lines[n];
        assert(lines@[n as int] == *l);
        if let Some(p) = &l.shown_path {
            proof {
                lemma_first_listed(fv, p@);
            }
            match position_of(&files, p.as_str()) {
                Some(pos) => {
                    assert(first_listed(fv, p@) == Some(pos as int));
                    assert(ins@[pos as int] == c[pos as int].0 && c[pos as int].0 <= n);
                    assert(del@[pos as int] == c[pos as int].1 && c[pos as int].1 <= n);
                    if l.origin == '+' {
                        let v = ins[pos] + 1;
                        ins.set(pos, v);
                        assert(c2 =~= c.update(pos as int, (c[pos as int].0 + 1, c[pos as int].1)));
                        assert(ins@ == old_ins.update(pos as int, v) && del@ == old_del);
                        proof {
                            lemma_agrees_ins(old_ins, old_del, c, pos as int, v);
                        }
                    } else if l.origin == '-' {
                        let v = del[pos] + 1;
                        del.set(pos, v);
                        assert(c2 =~= c.update(pos as int, (c[pos as int].0, c[pos as int].1 + 1)));
                        assert(del@ == old_del.update(pos as int, v) && ins@ == old_ins);
                        proof {
                            lemma_agrees_del(old_ins, old_del, c, pos as int, v);
                        }
                    } else {
                        assert(c2 == c);
                    }
                },
                None => {
                    assert(c2 == c);
                },
            }
        } else {
            assert(c2 == c);
        }
        n = n + 1;
        proof {
            assert(agrees(ins@, del@, c2));
        }
    }
    assert(n == lines.len());
    let mut out: Vec<FileEntry> = Vec::new();
    let mut j: usize = 0;
    let ghost es = entries_spec(deltas@, lines@, staged);
    proof {
        lemma_counts_shape(fv, lines@, lines@.len() as int);
    }
    assert(out@.map_values(|e: FileEntry| entry_view(e)) =~= es.subrange(0, 0));
    while j < files.len()
        invariant
            0 <= j <= files.len(),
            fv == files_view(files@),
            fv == listed_files(deltas@),
            ins@.len() == files@.len(),
            del@.len() == files@.len(),
            es == entries_spec(deltas@, lines@, staged),
            forall|x: int| 0 <= x < files@.len() ==> ins@[x] == #[trigger] counts_upto(fv, lines@, lines@.len() as int)[x].0
                && del@[x] == counts_upto(fv, lines@, lines@.len() as int)[x].1,
            out@.map_values(|e: FileEntry| entry_view(e)) == es.subrange(0, j as int),
        decreases files.len() - j,
    {
        let e = FileEntry {
            path: files[j].0.clone(),
            status: files[j].1,
            staged,
            insertions: ins[j],
            deletions: del[j],
        };
        let ghost old_o = out@.map_values(|e: FileEntry| entry_view(e));
        out.push(e);
        proof {
            assert(fv[j as int] == (files@[j as int].0@, files@[j as int].1));
            assert(out@.map_values(|e: FileEntry| entry_view(e)) =~= old_o.push(entry_view(e)));
            assert(es.subrange(0, j + 1) =~= es.subrange(0, j as int).push(es[j as int]));
        }
        j = j + 1;
    }
    assert(es.subrange(0, j as int) =~= es);
    out
}

/// What a line of a file's diff is.
#[derive(Debug, Clone, Copy, PartialEq, Eq)]
pub enum DiffLineKind {
    Context,
    Addition,
    Deletion,
    HunkHeader,
    FileHeader,
    Binary,
}

/// One line of a file's diff.
#[derive(Debug, Clone)]
pub struct DiffLine {
    pub kind: DiffLineKind,
    pub content: String,
}

/// One file's diff: its path, the path it had before when that differs,
/// whether it is binary, and its lines.
#[derive(Debug, Clone)]
pub struct FileDiff {
    pub path: String,
    pub old_path: Option<String>,
    pub is_binary: bool,
    pub lines: Vec<DiffLine>,
}

/// One hunk of a patch: its header and each line's origin and content, as
/// UTF-8 text (`None` where the bytes are not UTF-8).
#[derive(Debug, Clone)]
pub struct HunkFacts {
    pub header: Option<String>,
    pub lines: Vec<(char, Option<String>)>,
}

/// The patch libgit2 made for a delta.
#[derive(Debug, Clone)]
pub enum PatchFacts {
    /// No patch: a binary file; the new file's size.
    Missing { size: u64 },
    /// A patch flagged binary; the new file's size.
    Binary { size: u64 },
    /// A text patch.
    Text(Vec<HunkFacts>),
}

/// Whether a delta's new or old path is exactly `file`.
pub open spec fn delta_names(d: DeltaFacts, file: Seq<char>) -> bool {
    (d.new_path matches Some(p) && p@ == file) || (d.old_path matches Some(p) && p@ == file)
}

/// The index of the first delta naming `file`.
pub open spec fn first_naming(deltas: Seq<DeltaFacts>, file: Seq<char>) -> Option<int>
    decreases deltas.len(),
{
    if deltas.len() == 0 {
        None
    } else {
        match first_naming(deltas.drop_last(), file) {
            Some(k) => Some(k),
            None => if delta_names(deltas.last(), file) {
                Some(deltas.len() - 1)
            } else {
                None
            },
        }
    }
}

proof fn lemma_first_naming_found(deltas: Seq<DeltaFacts>, file: Seq<char>, i: int)
    requires
        0 <= i < deltas.len(),
        delta_names(deltas[i], file),
        forall|k: int| 0 <= k < i ==> !delta_names(#[trigger] deltas[k], file),
    ensures
        first_naming(deltas, file) == Some(i),
    decreases deltas.len(),
{
    if i < deltas.len() - 1 {
        lemma_first_naming_found(deltas.drop_last(), file, i);
    } else {
        lemma_first_naming_none(deltas.drop_last(), file);
    }
}

proof fn lemma_first_naming_none(deltas: Seq<DeltaFacts>, file: Seq<char>)
    requires
        forall|k: int| 0 <= k < deltas.len() ==> !delta_names(#[trigger] deltas[k], file),
    ensures
        first_naming(deltas, file) is None,
    decreases deltas.len(),
{
    if deltas.len() > 0 {
        lemma_first_naming_none(deltas.drop_last(), file);
    }
}

fn names_file(p: &Option<String>, file: &str) -> (r: bool)
    ensures
        r == (*p matches Some(x) && x@ == file@),
{
    match p {
        Some(x) => same_text(x.as_str(), file),
        None => false,
    }
}

/// The delta of a diff whose new or old path is `file_path`, or why there
/// is none.
pub fn locate_delta(deltas: &[DeltaFacts], file_path: &str) -> (r: Result<usize, String>)
    ensures
        match first_naming(deltas@, file_path@) {
            Some(k) => r == Ok::<usize, String>(k as usize),
            None => r matches Err(e) && e@ == "file '"@ + file_path@ + "' not found in diff"@,
        },
        r matches Ok(k) ==> k < deltas@.len() && delta_names(deltas@[k as int], file_path@),
{
    let mut i: usize = 0;
    while i < deltas.len()
        invariant
            0 <= i <= deltas.len(),
            forall|k: int| 0 <= k < i ==> !delta_names(#[trigger] deltas@[k], file_path@),
        decreases deltas.len() - i,
    {
        if names_file(&deltas[i].new_path, file_path) || names_file(&deltas[i].old_path, file_path) {
            proof {
                lemma_first_naming_found(deltas@, file_path@, i as int);
            }
            return Ok(i);
        }
        i = i + 1;
    }
    proof {
        lemma_first_naming_none(deltas@, file_path@);
    }
    let mut m = String::from_str("file '");
    push_str(&mut m, file_path);
    push_str(&mut m, "' not found in diff");
    Err(m)
}

pub open spec fn line_kind_of(origin: char) -> DiffLineKind {
    if origin == '+' {
        DiffLineKind::Addition
    } else if origin == '-' {
        DiffLineKind::Deletion
    } else if origin == '=' || origin == '>' {
        DiffLineKind::HunkHeader
    } else {
        DiffLineKind::Context
    }
}

pub open spec fn line_view(l: DiffLine) -> (DiffLineKind, Seq<char>) {
    (l.kind, l.content@)
}

/// The diff lines of one hunk's body.
pub open spec fn body_lines(ls: Seq<(char, Option<String>)>) -> Seq<(DiffLineKind, Seq<char>)> {
    ls.map_values(
        |l: (char, Option<String>)|
            (
                line_kind_of(l.0),
                match l.1 {
                    Some(c) => c@,
                    None => "<binary line>"@,
                },
            ),
    )
}

/// The diff lines of the hunks: each hunk's header line (`<binary hunk>`
/// when it is not UTF-8), then its lines (`<binary line>` likewise).
pub open spec fn hunk_lines(hs: Seq<HunkFacts>) -> Seq<(DiffLineKind, Seq<char>)>
    decreases hs.len(),
{
    if hs.len() == 0 {
        seq![]
    } else {
        hunk_lines(hs.drop_last()) + seq![
            (
                DiffLineKind::HunkHeader,
                match hs.last().header {
                    Some(h) => h@,
                    None => "<binary hunk>"@,
                },
            ),
        ] + body_lines(hs.last().lines@)
    }
}

/// The one line a binary file's diff shows.
pub open spec fn binary_line(size: u64) -> Seq<(DiffLineKind, Seq<char>)> {
    seq![(DiffLineKind::Binary, "Binary file ("@ + dec(size as nat) + " bytes)"@)]
}

fn push_body(out: &mut Vec<DiffLine>, ls: &Vec<(char, Option<String>)>)
    ensures
        final(out)@.map_values(|l: DiffLine| line_view(l)) == old(out)@.map_values(|l: DiffLine| line_view(l)) + body_lines(ls@),
{
    let ghost start = out@.map_values(|l: DiffLine| line_view(l));
    let mut i: usize = 0;
    while i < ls.len()
        invariant
            0 <= i <= ls.len(),
            out@.map_values(|l: DiffLine| line_view(l)) == start + body_lines(ls@.subrange(0, i as int)),
        decreases ls.len() - i,
    {
        let origin = ls[i].0;
        let kind = if origin == '+' {
            DiffLineKind::Addition
        } else if origin == '-' {
            DiffLineKind::Deletion
        } else if origin == '=' || origin == '>' {
            DiffLineKind::HunkHeader
        } else {
            DiffLineKind::Context
        };
        let content = match &ls[i].1 {
            Some(c) => c.clone(),
            None => String::from_str("<binary line>"),
        };
        let ghost old_o = out@.map_values(|l: DiffLine| line_view(l));
        let line = DiffLine { kind, content };
        out.push(line);
        proof {
            assert(out@.map_values(|l: DiffLine| line_view(l)) =~= old_o.push(line_view(line)));
            assert(body_lines(ls@.subrange(0, i + 1)) =~= body_lines(ls@.subrange(0, i as int)).push(line_view(line)));
        }
        i = i + 1;
    }
    assert(ls@.subrange(0, i as int) =~= ls@);
}

/// The diff of `file_path`, from its delta and the patch libgit2 made for
/// it: a binary file shows one line with its size; a text file shows each
/// hunk's header and lines. The old path is kept only when it differs.
pub fn build_file_diff(file_path: &str, delta: &DeltaFacts, patch: &PatchFacts) -> (r: FileDiff)
    ensures
        r.path@ == file_path@,
        match delta.old_path {
            Some(op) => if op@ != file_path@ {
                r.old_path matches Some(x) && x@ == op@
            } else {
                r.old_path is None
            },
            None => r.old_path is None,
        },
        r.is_binary == !(patch is Text),
        r.lines@.map_values(|l: DiffLine| line_view(l)) == match patch {
            PatchFacts::Missing { size } => binary_line(*size),
            PatchFacts::Binary { size } => binary_line(*size),
            PatchFacts::Text(hs) => hunk_lines(hs@),
        },
{
    let old_path = match &delta.old_path {
        Some(op) => if same_text(op.as_str(), file_path) {
            None
        } else {
            Some(op.clone())
        },
        None => None,
    };
    match patch {
        PatchFacts::Missing { size } | PatchFacts::Binary { size } => {
            let mut m = String::from_str("Binary file (");
            push_decimal(&mut m, *size);
            push_str(&mut m, " bytes)");
            let line = DiffLine { kind: DiffLineKind::Binary, content: m };
            let mut lines: Vec<DiffLine> = Vec::new();
            lines.push(line);
            assert(lines@.map_values(|l: DiffLine| line_view(l)) =~= binary_line(*size));
            FileDiff { path: String::from_str(file_path), old_path, is_binary: true, lines }
        },
        PatchFacts::Text(hs) => {
            let mut lines: Vec<DiffLine> = Vec::new();
            let mut h: usize = 0;
            while h < hs.len()
                invariant
                    0 <= h <= hs.len(),
                    lines@.map_values(|l: DiffLine| line_view(l)) == hunk_lines(hs@.subrange(0, h as int)),
                decreases hs.len() - h,
            {
                proof {
                    assert(hs@.subrange(0, h + 1).drop_last() =~= hs@.subrange(0, h as int));
                }
                let header = match &hs[h].header {
                    Some(x) => x.clone(),
                    None => String::from_str("<binary hunk>"),
                };
                let ghost old_l = lines@.map_values(|l: DiffLine| line_view(l));
                let hl = DiffLine { kind: DiffLineKind::HunkHeader, content: header };
                lines.push(hl);
                assert(lines@.map_values(|l: DiffLine| line_view(l)) =~= old_l.push(line_view(hl)));
                push_body(&mut lines, &hs[h].lines);
                h = h + 1;
            }
            assert(hs@.subrange(0, h as int) =~= hs@);
            FileDiff { path: String::from_str(file_path), old_path, is_binary: false, lines }
        },
    }
}

/// The paths of the entries that are (`staged`) or are not staged, in
/// order: what staging or unstaging everything acts on.
pub open spec fn paths_with(entries: Seq<FileEntry>, staged: bool) -> Seq<Seq<char>>
    decreases entries.len(),
{
    if entries.len() == 0 {
        seq![]
    } else {
        paths_with(entries.drop_last(), staged) + (if entries.last().staged == staged {
            seq![entries.last().path@]
        } else {
            seq![]
        })
    }
}

/// The paths of the entries whose staged flag is `staged`.
pub fn select_paths(entries: &[FileEntry], staged: bool) -> (r: Vec<String>)
    ensures
        strings_view(r@) == paths_with(entries@, staged),
{
    let mut r: Vec<String> = Vec::new();
    let mut i: usize = 0;
    while i < entries.len()
        invariant
            0 <= i <= entries.len(),
            strings_view(r@) == paths_with(entries@.subrange(0, i as int), staged),
        decreases entries.len() - i,
    {
        proof {
            assert(entries@.subrange(0, i + 1).drop_last() =~= entries@.subrange(0, i as int));
        }
        if entries[i].staged == staged {
            let ghost old_r = strings_view(r@);
            r.push(entries[i].path.clone());
            assert(strings_view(r@) =~= old_r.push(entries@[i as int].path@));
        }
        i = i + 1;
    }
    assert(entries@.subrange(0, i as int) =~= entries@);
    r
}

proof fn lemma_char_code(x: char, y: char)
    ensures
        ((x as u32) == (y as u32)) == (x == y),
{
}

/// `text_less` never holds both ways and is transitive in its negation:
/// not after `b`, and `b` not after `c`, puts `a` not after `c`.
pub(crate) proof fn lemma_text_order(a: Seq<char>, b: Seq<char>, c: Seq<char>)
    ensures
        !(text_less(a, b) && text_less(b, a)),
        !text_less(a, a),
        (!text_less(a, b) && !text_less(b, c)) ==> !text_less(a, c),
    decreases a.len(),
{
    if a.len() > 0 && b.len() > 0 && c.len() > 0 {
        lemma_text_order(a.drop_first(), b.drop_first(), c.drop_first());
        lemma_char_code(a[0], b[0]);
        lemma_char_code(b[0], c[0]);
        lemma_char_code(a[0], c[0]);
    }
    if a.len() > 0 && b.len() > 0 {
        lemma_text_order(a.drop_first(), b.drop_first(), b.drop_first());
    }
    if a.len() > 0 {
        lemma_text_order(a.drop_first(), a.drop_first(), a.drop_first());
    }
    if a.len() > 0 && c.len() > 0 {
        lemma_text_order(a.drop_first(), c.drop_first(), c.drop_first());
    }
}

/// No branch of `s` comes before one listed ahead of it.
pub open spec fn branches_in_order(s: Seq<BranchInfo>) -> bool {
    forall|i: int, j: int| 0 <= i < j < s.len() ==> !branch_before(#[trigger] s[j], #[trigger] s[i])
}

proof fn lemma_branch_order(a: BranchInfo, b: BranchInfo, c: BranchInfo)
    ensures
        !(branch_before(a, b) && branch_before(b, a)),
        (!branch_before(a, b) && !branch_before(b, c)) ==> !branch_before(a, c),
{
    lemma_text_order(a.name@, b.name@, c.name@);
    lemma_text_order(b.name@, a.name@, a.name@);
}

proof fn lemma_insert_branch_keeps_order(s: Seq<BranchInfo>, x: BranchInfo)
    requires
        branches_in_order(s),
    ensures
        branches_in_order(insert_branch(s, x)),
        insert_branch(s, x).len() == s.len() + 1,
        forall|k: int| 0 <= k < insert_branch(s, x).len() ==> (#[trigger] insert_branch(s, x)[k] == x || s.contains(insert_branch(s, x)[k])),
    decreases s.len(),
{
    if s.len() == 0 {
        return;
    }
    let last = s.last();
    let r = insert_branch(s, x);
    if branch_before(x, last) {
        let p = s.drop_last();
        assert(branches_in_order(p)) by {
            assert forall|i: int, j: int| 0 <= i < j < p.len() implies !branch_before(#[trigger] p[j], #[trigger] p[i]) by {
                assert(p[i] == s[i] && p[j] == s[j]);
            }
        }
        lemma_insert_branch_keeps_order(p, x);
        let q = insert_branch(p, x);
        assert(r == q.push(last));
        assert forall|i: int, j: int| 0 <= i < j < r.len() implies !branch_before(#[trigger] r[j], #[trigger] r[i]) by {
            if j == r.len() - 1 {
                assert(r[j] == last);
                if q[i] == x {
                    lemma_branch_order(x, last, last);
                } else {
                    assert(p.contains(q[i]));
                    let k = choose|k: int| 0 <= k < p.len() && p[k] == q[i];
                    assert(s[k] == q[i]);
                    assert(!branch_before(s[s.len() - 1], s[k]));
                }
            } else {
                assert(r[i] == q[i] && r[j] == q[j]);
            }
        }
        assert forall|k: int| 0 <= k < r.len() implies (#[trigger] r[k] == x || s.contains(r[k])) by {
            if k == r.len() - 1 {
                assert(s[s.len() - 1] == r[k]);
            } else {
                assert(r[k] == q[k]);
                if q[k] != x {
                    let m = choose|m: int| 0 <= m < p.len() && p[m] == q[k];
                    assert(s[m] == q[k]);
                }
            }
        }
    } else {
        assert(r == s.push(x));
        assert forall|i: int, j: int| 0 <= i < j < r.len() implies !branch_before(#[trigger] r[j], #[trigger] r[i]) by {
            if j == r.len() - 1 {
                assert(r[j] == x);
                if i < s.len() - 1 {
                    assert(!branch_before(s[s.len() - 1], s[i]));
                    lemma_branch_order(x, last, s[i]);
                }
            } else {
                assert(r[i] == s[i] && r[j] == s[j]);
            }
        }
        assert forall|k: int| 0 <= k < r.len() implies (#[trigger] r[k] == x || s.contains(r[k])) by {
            if k < s.len() {
                assert(r[k] == s[k]);
            }
        }
    }
}

/// The branch list comes out in its documented order: local branches
/// before remote ones, each by name; and it holds one entry per branch
/// kept.
pub proof fn lemma_branch_list_is_ordered(s: Seq<BranchInfo>)
    ensures
        branches_in_order(sort_branches(s)),
        sort_branches(s).len() == s.len(),
    decreases s.len(),
{
    if s.len() > 0 {
        lemma_branch_list_is_ordered(s.drop_last());
        lemma_insert_branch_keeps_order(sort_branches(s.drop_last()), s.last());
    }
}

/// Newest first: no branch was committed to later than one ahead of it.
pub open spec fn newest_first(s: Seq<BranchInfo>) -> bool {
    forall|i: int, j: int| 0 <= i < j < s.len() ==> #[trigger] s[i].last_commit_time >= #[trigger] s[j].last_commit_time
}

proof fn lemma_insert_recent_keeps_order(s: Seq<BranchInfo>, x: BranchInfo)
    requires
        newest_first(s),
    ensures
        newest_first(insert_recent(s, x)),
        insert_recent(s, x).len() == s.len() + 1,
        forall|k: int| 0 <= k < insert_recent(s, x).len() ==> (#[trigger] insert_recent(s, x)[k] == x || s.contains(insert_recent(s, x)[k])),
    decreases s.len(),
{
    if s.len() == 0 {
        return;
    }
    let last = s.last();
    let r = insert_recent(s, x);
    if x.last_commit_time > last.last_commit_time {
        let p = s.drop_last();
        assert(newest_first(p)) by {
            assert forall|i: int, j: int| 0 <= i < j < p.len() implies #[trigger] p[i].last_commit_time >= #[trigger] p[j].last_commit_time by {
                assert(p[i] == s[i] && p[j] == s[j]);
            }
        }
        lemma_insert_recent_keeps_order(p, x);
        let q = insert_recent(p, x);
        assert(r == q.push(last));
        assert forall|i: int, j: int| 0 <= i < j < r.len() implies #[trigger] r[i].last_commit_time >= #[trigger] r[j].last_commit_time by {
            if j == r.len() - 1 {
                if q[i] != x {
                    let k = choose|k: int| 0 <= k < p.len() && p[k] == q[i];
                    assert(s[k] == q[i]);
                    assert(s[k].last_commit_time >= s[s.len() - 1].last_commit_time);
                }
            } else {
                assert(r[i] == q[i] && r[j] == q[j]);
            }
        }
        assert forall|k: int| 0 <= k < r.len() implies (#[trigger] r[k] == x || s.contains(r[k])) by {
            if k == r.len() - 1 {
                assert(s[s.len() - 1] == r[k]);
            } else {
                assert(r[k] == q[k]);
                if q[k] != x {
                    let m = choose|m: int| 0 <= m < p.len() && p[m] == q[k];
                    assert(s[m] == q[k]);
                }
            }
        }
    } else {
        assert(r == s.push(x));
        assert forall|i: int, j: int| 0 <= i < j < r.len() implies #[trigger] r[i].last_commit_time >= #[trigger] r[j].last_commit_time by {
            if j == r.len() - 1 {
                if i < s.len() - 1 {
                    assert(s[i].last_commit_time >= s[s.len() - 1].last_commit_time);
                }
            } else {
                assert(r[i] == s[i] && r[j] == s[j]);
            }
        }
        assert forall|k: int| 0 <= k < r.len() implies (#[trigger] r[k] == x || s.contains(r[k])) by {
            if k < s.len() {
                assert(r[k] == s[k]);
            }
        }
    }
}

/// The recent branches come newest first, and the cut keeps the newest:
/// every branch of the full ordering past the cut is no newer than any
/// branch kept.
pub proof fn lemma_recent_branches_keep_the_newest(s: Seq<BranchInfo>, limit: int)
    requires
        0 <= limit,
    ensures
        newest_first(sort_recent(s)),
        sort_recent(s).len() == s.len(),
        forall|i: int, j: int|
            0 <= i < limit && limit <= j < sort_recent(s).len() ==> #[trigger] sort_recent(s)[i].last_commit_time >= #[trigger] sort_recent(s)[j].last_commit_time,
    decreases s.len(),
{
    if s.len() > 0 {
        lemma_recent_branches_keep_the_newest(s.drop_last(), limit);
        lemma_insert_recent_keeps_order(sort_recent(s.drop_last()), s.last());
    }
}

} // verus!
