//! The repo list: which of the repos found under a root are kept, the cache
//! file's text, and fuzzy matching of repo paths against a query.
use crate::paths::{path_eq, path_same};
use crate::text::{
    chars_of, join_strings, join_with, lemma_next_newline_bounds, lines, lines_of, lines_view, next_newline,
    strip_cr, string_of, strings_view,
};
use vstd::prelude::*;

verus! {

/// Whether std's `Path::starts_with` holds: `b`'s components are a prefix
/// of `a`'s.
pub uninterp spec fn path_under(a: Seq<char>, b: Seq<char>) -> bool;

/// `Path::new(a).starts_with(b)`. Named: the component rules are std's.
#[verifier::external_body]
fn path_starts_with(a: &str, b: &str) -> (r: bool)
    ensures
        r == path_under(a@, b@),
{
    std::path::Path::new(a).starts_with(b)
}

/// Whether `r` sits inside another repo of `found` (a submodule checkout).
pub open spec fn nested_in(found: Seq<Seq<char>>, r: Seq<char>) -> bool {
    exists|k: int| 0 <= k < found.len() && !path_same(#[trigger] found[k], r) && path_under(r, found[k])
}

/// The repos of `found` below index `n` that sit inside no other repo of
/// `found`, in order.
pub open spec fn outermost_upto(found: Seq<Seq<char>>, n: int) -> Seq<Seq<char>>
    decreases n,
{
    if n <= 0 {
        seq![]
    } else {
        outermost_upto(found, n - 1) + (if nested_in(found, found[n - 1]) {
            seq![]
        } else {
            seq![found[n - 1]]
        })
    }
}

fn nested(found: &Vec<String>, r: &str) -> (res: bool)
    ensures
        res == nested_in(strings_view(found@), r@),
{
    let mut k: usize = 0;
    while k < found.len()
        invariant
            0 <= k <= found.len(),
            forall|j: int|
                0 <= j < k ==> !(!path_same(#[trigger] strings_view(found@)[j], r@) && path_under(
                    r@,
                    strings_view(found@)[j],
                )),
        decreases found.len() - k,
    {
        let other = found[k].as_str();
        if !path_eq(other, r) && path_starts_with(r, other) {
            assert(strings_view(found@)[k as int] == other@);
            return true;
        }
        k = k + 1;
    }
    false
}

/// Drop the repos of one root's walk that sit inside another repo found in
/// the same walk (submodules), keeping the order.
pub fn drop_nested(found: &Vec<String>) -> (r: Vec<String>)
    ensures
        strings_view(r@) == outermost_upto(strings_view(found@), found@.len() as int),
{
    let mut r: Vec<String> = Vec::new();
    let mut i: usize = 0;
    while i < found.len()
        invariant
            0 <= i <= found.len(),
            strings_view(r@) == outermost_upto(strings_view(found@), i as int),
        decreases found.len() - i,
    {
        let ghost old_r = strings_view(r@);
        if !nested(found, found[i].as_str()) {
            r.push(found[i].clone());
            assert(strings_view(r@) =~= old_r.push(strings_view(found@)[i as int]));
        }
        i = i + 1;
    }
    r
}

/// The lines of a cache file that are not empty, in order.
pub open spec fn nonempty_lines(ls: Seq<Seq<char>>) -> Seq<Seq<char>>
    decreases ls.len(),
{
    if ls.len() == 0 {
        seq![]
    } else {
        nonempty_lines(ls.drop_last()) + (if ls.last().len() == 0 {
            seq![]
        } else {
            seq![ls.last()]
        })
    }
}

/// The repo paths a cache file's text lists: one per non-empty line.
pub fn cache_entries(content: &str) -> (r: Vec<String>)
    ensures
        strings_view(r@) == nonempty_lines(lines(content@)),
{
    let v = chars_of(content);
    let ls = lines_of(&v);
    let mut r: Vec<String> = Vec::new();
    let mut i: usize = 0;
    while i < ls.len()
        invariant
            0 <= i <= ls.len(),
            lines_view(ls@) == lines(content@),
            strings_view(r@) == nonempty_lines(lines_view(ls@).subrange(0, i as int)),
        decreases ls.len() - i,
    {
        let ghost lv = lines_view(ls@);
        proof {
            assert(lv.subrange(0, i + 1).drop_last() =~= lv.subrange(0, i as int));
            assert(lv[i as int] == ls@[i as int]@);
        }
        if ls[i].len() > 0 {
            let ghost old_r = strings_view(r@);
            r.push(string_of(ls[i].as_slice()));
            assert(strings_view(r@) =~= old_r.push(lv[i as int]));
        }
        i = i + 1;
    }
    assert(lines_view(ls@).subrange(0, i as int) =~= lines_view(ls@));
    r
}

/// The text of the cache file for `repos`: one path per line, no final
/// newline.
pub fn cache_text(repos: &[String]) -> (r: String)
    ensures
        r@ == join_with(strings_view(repos@), "\n"@),
{
    join_strings(repos, "\n")
}

/// nucleo's score of `haystack` against the fuzzy pattern `query` (smart
/// case, smart normalization, default matcher configuration), or `None`
/// when it does not match.
pub uninterp spec fn fuzzy_score_of(query: Seq<char>, haystack: Seq<char>) -> Option<u32>;

/// `Pattern::score` of nucleo, for a fuzzy pattern made from `query` with
/// smart case matching and smart normalization, on a matcher with the
/// default configuration. Named: nucleo's scoring is an algorithm of its
/// own; the claim is that the score depends on the query and the text only.
/// nucleo asserts that a text holds at most 2^32 - 1 characters, so longer
/// ones are left out.
#[verifier::external_body]
fn fuzzy_score(query: &str, haystack: &str) -> (r: Option<u32>)
    requires
        haystack@.len() <= 4294967295,
    ensures
        r == fuzzy_score_of(query@, haystack@),
{
    let mut matcher = nucleo::Matcher::new(nucleo::Config::DEFAULT);
    let pattern = nucleo::pattern::Pattern::new(
        query,
        nucleo::pattern::CaseMatching::Smart,
        nucleo::pattern::Normalization::Smart,
        nucleo::pattern::AtomKind::Fuzzy,
    );
    let mut buf = Vec::new();
    pattern.score(nucleo::Utf32Str::new(haystack, &mut buf), &mut matcher)
}

/// The repos of `repos` below `n` that match, each with its score.
pub open spec fn scored_upto(query: Seq<char>, repos: Seq<Seq<char>>, n: int) -> Seq<(u32, Seq<char>)>
    decreases n,
{
    if n <= 0 {
        seq![]
    } else {
        scored_upto(query, repos, n - 1) + match fuzzy_score_of(query, repos[n - 1]) {
            Some(s) => seq![(s, repos[n - 1])],
            None => seq![],
        }
    }
}

/// `s` (best first) with `x` put after every entry scoring at least as
/// well: one step of a stable sort, best score first.
pub open spec fn insert_by_score(s: Seq<(u32, Seq<char>)>, x: (u32, Seq<char>)) -> Seq<(u32, Seq<char>)>
    decreases s.len(),
{
    if s.len() == 0 {
        seq![x]
    } else if x.0 > s.last().0 {
        insert_by_score(s.drop_last(), x).push(s.last())
    } else {
        s.push(x)
    }
}

/// `s` sorted stably by score, best first.
pub open spec fn sort_by_score(s: Seq<(u32, Seq<char>)>) -> Seq<(u32, Seq<char>)>
    decreases s.len(),
{
    if s.len() == 0 {
        seq![]
    } else {
        insert_by_score(sort_by_score(s.drop_last()), s.last())
    }
}

/// The repos that match `query`, best score first (ties in the given
/// order); every repo when the query is empty.
pub open spec fn fuzzy_spec(query: Seq<char>, repos: Seq<Seq<char>>) -> Seq<Seq<char>> {
    if query.len() == 0 {
        repos
    } else {
        sort_by_score(scored_upto(query, repos, repos.len() as int)).map_values(
            |e: (u32, Seq<char>)| e.1,
        )
    }
}

pub open spec fn scored_view(v: Seq<(u32, String)>) -> Seq<(u32, Seq<char>)> {
    v.map_values(|e: (u32, String)| (e.0, e.1@))
}

fn insert_scored(v: &mut Vec<(u32, String)>, x: (u32, String))
    ensures
        scored_view(final(v)@) == insert_by_score(scored_view(old(v)@), (x.0, x.1@)),
    decreases old(v)@.len(),
{
    let ghost ov = scored_view(v@);
    if v.len() == 0 {
        v.push(x);
        assert(scored_view(v@) =~= seq![(x.0, x.1@)]);
        return;
    }
    if x.0 > v[v.len() - 1].0 {
        let last = v.pop().unwrap();
        assert(scored_view(v@) =~= ov.drop_last());
        insert_scored(v, x);
        let ghost mid = scored_view(v@);
        v.push(last);
        assert(scored_view(v@) =~= mid.push(ov.last()));
    } else {
        v.push(x);
        assert(scored_view(v@) =~= ov.push((x.0, x.1@)));
    }
}

/// Fuzzy-match repo paths against `query`: the matching ones, best score
/// first; all of them, as given, for an empty query. Each path holds at
/// most 2^32 - 1 characters, the most nucleo matches against.
pub fn fuzzy_match(query: &str, repos: &[String]) -> (r: Vec<String>)
    requires
        forall|i: int| 0 <= i < repos@.len() ==> (#[trigger] repos@[i])@.len() <= 4294967295,
    ensures
        strings_view(r@) == fuzzy_spec(query@, strings_view(repos@)),
{
    if query.unicode_len() == 0 {
        let mut all: Vec<String> = Vec::new();
        let mut k: usize = 0;
        while k < repos.len()
            invariant
                0 <= k <= repos.len(),
                strings_view(all@) == strings_view(repos@).subrange(0, k as int),
            decreases repos.len() - k,
        {
            let ghost old_a = strings_view(all@);
            all.push(repos[k].clone());
            assert(strings_view(all@) =~= old_a.push(repos@[k as int]@));
            assert(strings_view(repos@).subrange(0, k + 1) =~= strings_view(repos@).subrange(0, k as int).push(repos@[k as int]@));
            k = k + 1;
        }
        assert(strings_view(repos@).subrange(0, k as int) =~= strings_view(repos@));
        return all;
    }
    let mut sorted: Vec<(u32, String)> = Vec::new();
    let mut i: usize = 0;
    while i < repos.len()
        invariant
            0 <= i <= repos.len(),
            forall|k: int| 0 <= k < repos@.len() ==> (#[trigger] repos@[k])@.len() <= 4294967295,
            scored_view(sorted@) == sort_by_score(scored_upto(query@, strings_view(repos@), i as int)),
        decreases repos.len() - i,
    {
        let ghost before = scored_upto(query@, strings_view(repos@), i as int);
        match fuzzy_score(query, repos[i].as_str()) {
            Some(s) => {
                proof {
                    assert(scored_upto(query@, strings_view(repos@), i + 1) =~= before.push((s, repos@[i as int]@)));
                    assert(before.push((s, repos@[i as int]@)).drop_last() =~= before);
                }
                insert_scored(&mut sorted, (s, repos[i].clone()));
            },
            None => {
                assert(scored_upto(query@, strings_view(repos@), i + 1) =~= before);
            },
        }
        i = i + 1;
    }
    let mut out: Vec<String> = Vec::new();
    let mut j: usize = 0;
    while j < sorted.len()
        invariant
            0 <= j <= sorted.len(),
            strings_view(out@) == scored_view(sorted@).subrange(0, j as int).map_values(
                |e: (u32, Seq<char>)| e.1,
            ),
        decreases sorted.len() - j,
    {
        let ghost old_o = strings_view(out@);
        out.push(sorted[j].1.clone());
        assert(strings_view(out@) =~= old_o.push(sorted@[j as int].1@));
        assert(scored_view(sorted@).subrange(0, j + 1).map_values(|e: (u32, Seq<char>)| e.1) =~= scored_view(sorted@).subrange(0, j as int).map_values(|e: (u32, Seq<char>)| e.1).push(sorted@[j as int].1@));
        j = j + 1;
    }
    assert(scored_view(sorted@).subrange(0, j as int) =~= scored_view(sorted@));
    out
}

/// Whether the repo cache is still fresh: it is when its age is known and
/// at most `max_age_secs`.
pub fn cache_is_fresh(age_secs: Option<u64>, max_age_secs: u64) -> (r: bool)
    ensures
        r == (age_secs matches Some(a) && a <= max_age_secs),
{
    match age_secs {
        Some(a) => a <= max_age_secs,
        None => false,
    }
}

proof fn lemma_join_front(parts: Seq<Seq<char>>, sep: Seq<char>)
    requires
        parts.len() >= 2,
    ensures
        join_with(parts, sep) == parts[0] + sep + join_with(parts.drop_first(), sep),
    decreases parts.len(),
{
    let rest = parts.drop_first();
    if parts.len() == 2 {
        assert(parts.drop_last() =~= seq![parts[0]]);
        assert(rest =~= seq![parts[1]]);
        assert(join_with(parts.drop_last(), sep) == parts[0]);
        assert(join_with(rest, sep) == parts[1]);
        assert(join_with(parts, sep) == join_with(parts.drop_last(), sep) + sep + parts.last());
    } else {
        lemma_join_front(parts.drop_last(), sep);
        assert(parts.drop_last().drop_first() =~= rest.drop_last());
        assert(rest.last() == parts.last());
        assert(parts.drop_last()[0] == parts[0]);
        assert(join_with(rest, sep) == join_with(rest.drop_last(), sep) + sep + rest.last());
        assert(join_with(parts, sep) =~= parts[0] + sep + join_with(rest, sep));
    }
}

proof fn lemma_newline_after(a: Seq<char>, t: Seq<char>, from: int)
    requires
        0 <= from <= a.len(),
        a.len() < t.len(),
        t.subrange(0, a.len() as int) == a,
        t[a.len() as int] == '\n',
        forall|i: int| 0 <= i < a.len() ==> a[i] != '\n',
    ensures
        next_newline(t, from) == a.len(),
    decreases a.len() - from,
{
    if from < a.len() {
        assert(t[from] == t.subrange(0, a.len() as int)[from]);
        lemma_newline_after(a, t, from + 1);
    }
}

proof fn lemma_lines_front(a: Seq<char>, b: Seq<char>)
    requires
        forall|i: int| 0 <= i < a.len() ==> a[i] != '\n',
    ensures
        lines(a + seq!['\n'] + b) == seq![strip_cr(a)] + lines(b),
{
    let t = a + seq!['\n'] + b;
    assert(t.subrange(0, a.len() as int) =~= a);
    lemma_newline_after(a, t, 0);
    assert(t.subrange(a.len() as int + 1, t.len() as int) =~= b);
}

proof fn lemma_lines_whole(a: Seq<char>)
    requires
        a.len() > 0,
        forall|i: int| 0 <= i < a.len() ==> a[i] != '\n',
    ensures
        lines(a) == seq![a],
{
    lemma_whole_has_no_newline(a, 0);
}

proof fn lemma_whole_has_no_newline(a: Seq<char>, from: int)
    requires
        0 <= from <= a.len(),
        forall|i: int| 0 <= i < a.len() ==> a[i] != '\n',
    ensures
        next_newline(a, from) == a.len(),
    decreases a.len() - from,
{
    if from < a.len() {
        lemma_whole_has_no_newline(a, from + 1);
    }
}

/// The paths in the order written, for paths that each make one line.
pub open spec fn one_line_each(repos: Seq<Seq<char>>) -> bool {
    &&& forall|k: int| 0 <= k < repos.len() ==> (#[trigger] repos[k]).len() > 0
    &&& forall|k: int, i: int| 0 <= k < repos.len() && 0 <= i < repos[k].len() ==> #[trigger] repos[k][i] != '\n'
    &&& forall|k: int| 0 <= k < repos.len() - 1 ==> (#[trigger] repos[k]).last() != '\r'
}

proof fn lemma_lines_of_join(repos: Seq<Seq<char>>)
    requires
        one_line_each(repos),
    ensures
        lines(join_with(repos, seq!['\n'])) == repos,
    decreases repos.len(),
{
    if repos.len() == 0 {
        assert(join_with(repos, seq!['\n']) =~= Seq::<char>::empty());
    } else if repos.len() == 1 {
        let p = repos[0];
        assert forall|i: int| 0 <= i < p.len() implies p[i] != '\n' by {
            assert(repos[0][i] != '\n');
        }
        lemma_lines_whole(p);
        assert(seq![p] =~= repos);
    } else {
        let p = repos[0];
        let rest = repos.drop_first();
        lemma_join_front(repos, seq!['\n']);
        assert forall|i: int| 0 <= i < p.len() implies p[i] != '\n' by {
            assert(repos[0][i] != '\n');
        }
        assert(p.last() != '\r');
        assert forall|k: int| 0 <= k < rest.len() implies (#[trigger] rest[k]).len() > 0 by {
            assert(rest[k] == repos[k + 1]);
        }
        assert forall|k: int, i: int| 0 <= k < rest.len() && 0 <= i < rest[k].len() implies #[trigger] rest[k][i] != '\n' by {
            assert(rest[k] == repos[k + 1]);
            assert(repos[k + 1][i] != '\n');
        }
        assert forall|k: int| 0 <= k < rest.len() - 1 implies (#[trigger] rest[k]).last() != '\r' by {
            assert(rest[k] == repos[k + 1]);
        }
        lemma_lines_of_join(rest);
        lemma_lines_front(p, join_with(rest, seq!['\n']));
        assert(strip_cr(p) == p);
        assert(seq![p] + rest =~= repos);
    }
}

proof fn lemma_nonempty_kept(ls: Seq<Seq<char>>)
    requires
        forall|k: int| 0 <= k < ls.len() ==> (#[trigger] ls[k]).len() > 0,
    ensures
        nonempty_lines(ls) == ls,
    decreases ls.len(),
{
    if ls.len() > 0 {
        assert forall|k: int| 0 <= k < ls.drop_last().len() implies (#[trigger] ls.drop_last()[k]).len() > 0 by {
            assert(ls.drop_last()[k] == ls[k]);
        }
        lemma_nonempty_kept(ls.drop_last());
        assert(ls[ls.len() - 1].len() > 0);
        assert(ls.drop_last().push(ls.last()) =~= ls);
    }
}

/// What is written to the repo cache is what is read back from it, for
/// paths that are each one line: not empty, with no `\n`, and (but for the
/// last) not ending in `\r`, which a read takes for a line break.
pub proof fn lemma_cache_reads_back(repos: Seq<Seq<char>>)
    requires
        one_line_each(repos),
    ensures
        nonempty_lines(lines(join_with(repos, "\n"@))) == repos,
{
    reveal_strlit("\n");
    assert("\n"@ =~= seq!['\n']);
    lemma_lines_of_join(repos);
    lemma_nonempty_kept(repos);
}

/// Best score first: no entry scores above one listed ahead of it.
pub open spec fn best_first(s: Seq<(u32, Seq<char>)>) -> bool {
    forall|i: int, j: int| 0 <= i < j < s.len() ==> #[trigger] s[i].0 >= #[trigger] s[j].0
}

/// The paths of scored entries.
pub open spec fn paths_of(s: Seq<(u32, Seq<char>)>) -> Seq<Seq<char>> {
    s.map_values(|e: (u32, Seq<char>)| e.1)
}

proof fn lemma_insert_by_score(s: Seq<(u32, Seq<char>)>, x: (u32, Seq<char>))
    requires
        best_first(s),
    ensures
        best_first(insert_by_score(s, x)),
        forall|k: int| 0 <= k < insert_by_score(s, x).len() ==> (#[trigger] insert_by_score(s, x)[k] == x || s.contains(insert_by_score(s, x)[k])),
        paths_of(insert_by_score(s, x)).to_multiset() == paths_of(s).to_multiset().insert(x.1),
    decreases s.len(),
{
    broadcast use vstd::seq_lib::group_to_multiset_ensures;
    let r = insert_by_score(s, x);
    if s.len() == 0 {
        assert(paths_of(r) =~= paths_of(s).push(x.1));
        return;
    }
    let last = s.last();
    let p = s.drop_last();
    assert(p.push(last) =~= s);
    assert(paths_of(s) =~= paths_of(p).push(last.1));
    if x.0 > last.0 {
        assert(best_first(p)) by {
            assert forall|i: int, j: int| 0 <= i < j < p.len() implies #[trigger] p[i].0 >= #[trigger] p[j].0 by {
                assert(p[i] == s[i] && p[j] == s[j]);
            }
        }
        lemma_insert_by_score(p, x);
        let q = insert_by_score(p, x);
        assert(r == q.push(last));
        assert(paths_of(r) =~= paths_of(q).push(last.1));
        assert(paths_of(s).to_multiset().insert(x.1) =~= paths_of(p).to_multiset().insert(x.1).insert(last.1));
        assert forall|i: int, j: int| 0 <= i < j < r.len() implies #[trigger] r[i].0 >= #[trigger] r[j].0 by {
            if j == r.len() - 1 {
                if q[i] != x {
                    let k = choose|k: int| 0 <= k < p.len() && p[k] == q[i];
                    assert(s[k] == q[i]);
                    assert(s[k].0 >= s[s.len() - 1].0);
                }
            } else {
                assert(r[i] == q[i] && r[j] == q[j]);
            }
        }
        assert forall|k: int| 0 <= k < r.len() implies (#[trigger] r[k] == x || s.contains(r[k])) by {
            if k == r.len() - 1 {
                assert(s[s.len() - 1] == r[k]);
            } else {
                assert(r[k] == q[k]);
                if q[k] != x {
                    let m = choose|m: int| 0 <= m < p.len() && p[m] == q[k];
                    assert(s[m] == q[k]);
                }
            }
        }
    } else {
        assert(r == s.push(x));
        assert(paths_of(r) =~= paths_of(s).push(x.1));
        assert forall|i: int, j: int| 0 <= i < j < r.len() implies #[trigger] r[i].0 >= #[trigger] r[j].0 by {
            if j == r.len() - 1 {
                if i < s.len() - 1 {
                    assert(s[i].0 >= s[s.len() - 1].0);
                }
            } else {
                assert(r[i] == s[i] && r[j] == s[j]);
            }
        }
        assert forall|k: int| 0 <= k < r.len() implies (#[trigger] r[k] == x || s.contains(r[k])) by {
            if k < s.len() {
                assert(r[k] == s[k]);
            }
        }
    }
}

proof fn lemma_sort_by_score(s: Seq<(u32, Seq<char>)>)
    ensures
        best_first(sort_by_score(s)),
        forall|k: int| 0 <= k < sort_by_score(s).len() ==> s.contains(#[trigger] sort_by_score(s)[k]),
        paths_of(sort_by_score(s)).to_multiset() == paths_of(s).to_multiset(),
    decreases s.len(),
{
    broadcast use vstd::seq_lib::group_to_multiset_ensures;
    if s.len() == 0 {
        assert(paths_of(s) =~= Seq::<Seq<char>>::empty());
        assert(paths_of(sort_by_score(s)) =~= Seq::<Seq<char>>::empty());
        return;
    }
    let p = s.drop_last();
    lemma_sort_by_score(p);
    lemma_insert_by_score(sort_by_score(p), s.last());
    assert(p.push(s.last()) =~= s);
    assert(paths_of(s) =~= paths_of(p).push(s.last().1));
    let r = sort_by_score(s);
    assert forall|k: int| 0 <= k < r.len() implies s.contains(#[trigger] r[k]) by {
        if r[k] == s.last() {
            assert(s[s.len() - 1] == r[k]);
        } else {
            let t = sort_by_score(p);
            assert(t.contains(r[k]));
            let m = choose|m: int| 0 <= m < t.len() && t[m] == r[k];
            assert(p.contains(t[m]));
            let j = choose|j: int| 0 <= j < p.len() && p[j] == t[m];
            assert(s[j] == r[k]);
        }
    }
}

proof fn lemma_scored_entries(q: Seq<char>, repos: Seq<Seq<char>>, n: int)
    requires
        0 <= n <= repos.len(),
    ensures
        forall|k: int| 0 <= k < scored_upto(q, repos, n).len() ==> fuzzy_score_of(q, (#[trigger] scored_upto(q, repos, n)[k]).1)
            == Some(scored_upto(q, repos, n)[k].0),
        forall|x: Seq<char>| #[trigger] paths_of(scored_upto(q, repos, n)).to_multiset().count(x) == (if fuzzy_score_of(q, x) is Some {
            repos.take(n).to_multiset().count(x)
        } else {
            0
        }),
    decreases n,
{
    broadcast use vstd::seq_lib::group_to_multiset_ensures;
    broadcast use vstd::multiset::group_multiset_axioms;
    if n == 0 {
        assert(paths_of(scored_upto(q, repos, 0)) =~= Seq::<Seq<char>>::empty());
        assert(repos.take(0) =~= Seq::<Seq<char>>::empty());
        return;
    }
    lemma_scored_entries(q, repos, n - 1);
    let prev = scored_upto(q, repos, n - 1);
    let y = repos[n - 1];
    assert(repos.take(n) =~= repos.take(n - 1).push(y));
    match fuzzy_score_of(q, y) {
        Some(sc) => {
            assert(scored_upto(q, repos, n) =~= prev.push((sc, y)));
            assert(paths_of(scored_upto(q, repos, n)) =~= paths_of(prev).push(y));
            assert forall|k: int| 0 <= k < scored_upto(q, repos, n).len() implies fuzzy_score_of(q, (#[trigger] scored_upto(q, repos, n)[k]).1)
                == Some(scored_upto(q, repos, n)[k].0) by {
                if k < prev.len() {
                    assert(scored_upto(q, repos, n)[k] == prev[k]);
                }
            }
        },
        None => {
            assert(scored_upto(q, repos, n) =~= prev);
            assert forall|x: Seq<char>| #[trigger] paths_of(scored_upto(q, repos, n)).to_multiset().count(x) == (if fuzzy_score_of(q, x) is Some {
                repos.take(n).to_multiset().count(x)
            } else {
                0
            }) by {
                if x != y {
                    assert(repos.take(n).to_multiset().count(x) == repos.take(n - 1).to_multiset().count(x));
                }
            }
        },
    }
}

/// A fuzzy search with a query keeps just the repos that match it, each as
/// often as it was given, and lists them best score first.
pub proof fn lemma_fuzzy_match_best_first(q: Seq<char>, repos: Seq<Seq<char>>)
    requires
        q.len() > 0,
    ensures
        forall|i: int| 0 <= i < fuzzy_spec(q, repos).len() ==> fuzzy_score_of(q, #[trigger] fuzzy_spec(q, repos)[i]) is Some,
        forall|i: int, j: int|
            0 <= i < j < fuzzy_spec(q, repos).len() ==> fuzzy_score_of(q, #[trigger] fuzzy_spec(q, repos)[i])->0
                >= fuzzy_score_of(q, #[trigger] fuzzy_spec(q, repos)[j])->0,
        forall|x: Seq<char>| #[trigger] fuzzy_spec(q, repos).to_multiset().count(x) == (if fuzzy_score_of(q, x) is Some {
            repos.to_multiset().count(x)
        } else {
            0
        }),
{
    let n = repos.len() as int;
    let p = scored_upto(q, repos, n);
    lemma_scored_entries(q, repos, n);
    lemma_sort_by_score(p);
    let t = sort_by_score(p);
    assert(fuzzy_spec(q, repos) == paths_of(t));
    assert(repos.take(n) =~= repos);
    assert forall|i: int| 0 <= i < t.len() implies fuzzy_score_of(q, (#[trigger] t[i]).1) == Some(t[i].0) by {
        assert(p.contains(t[i]));
        let k = choose|k: int| 0 <= k < p.len() && p[k] == t[i];
        assert(fuzzy_score_of(q, p[k].1) == Some(p[k].0));
    }
    assert forall|i: int| 0 <= i < paths_of(t).len() implies fuzzy_score_of(q, #[trigger] paths_of(t)[i]) is Some by {
        assert(paths_of(t)[i] == t[i].1);
        assert(fuzzy_score_of(q, t[i].1) == Some(t[i].0));
    }
    assert forall|i: int, j: int|
        0 <= i < j < paths_of(t).len() implies fuzzy_score_of(q, #[trigger] paths_of(t)[i])->0
            >= fuzzy_score_of(q, #[trigger] paths_of(t)[j])->0 by {
        assert(paths_of(t)[i] == t[i].1 && paths_of(t)[j] == t[j].1);
        assert(fuzzy_score_of(q, t[i].1) == Some(t[i].0));
        assert(fuzzy_score_of(q, t[j].1) == Some(t[j].0));
        assert(t[i].0 >= t[j].0);
    }
}

/// The paths of `ps` that score exactly `v` against `q`, in their order.
pub open spec fn scoring(ps: Seq<Seq<char>>, q: Seq<char>, v: u32) -> Seq<Seq<char>>
    decreases ps.len(),
{
    if ps.len() == 0 {
        seq![]
    } else {
        scoring(ps.drop_last(), q, v) + (if fuzzy_score_of(q, ps.last()) == Some(v) {
            seq![ps.last()]
        } else {
            seq![]
        })
    }
}

/// The paths of the entries of `s` whose score is `v`, in their order.
pub open spec fn at_score(s: Seq<(u32, Seq<char>)>, v: u32) -> Seq<Seq<char>>
    decreases s.len(),
{
    if s.len() == 0 {
        seq![]
    } else {
        at_score(s.drop_last(), v) + (if s.last().0 == v {
            seq![s.last().1]
        } else {
            seq![]
        })
    }
}

proof fn lemma_insert_at_score(s: Seq<(u32, Seq<char>)>, x: (u32, Seq<char>), v: u32)
    ensures
        at_score(insert_by_score(s, x), v) == at_score(s, v) + (if x.0 == v {
            seq![x.1]
        } else {
            seq![]
        }),
    decreases s.len(),
{
    if s.len() == 0 {
        assert(seq![x].drop_last() =~= Seq::<(u32, Seq<char>)>::empty());
        assert(at_score(seq![x], v) =~= at_score(Seq::<(u32, Seq<char>)>::empty(), v) + (if x.0 == v {
            seq![x.1]
        } else {
            seq![]
        }));
    } else if x.0 > s.last().0 {
        lemma_insert_at_score(s.drop_last(), x, v);
        let q = insert_by_score(s.drop_last(), x);
        assert(q.push(s.last()).drop_last() =~= q);
        assert(at_score(q.push(s.last()), v) =~= at_score(s, v) + (if x.0 == v {
            seq![x.1]
        } else {
            seq![]
        }));
    } else {
        assert(s.push(x).drop_last() =~= s);
    }
}

proof fn lemma_sort_at_score(s: Seq<(u32, Seq<char>)>, v: u32)
    ensures
        at_score(sort_by_score(s), v) == at_score(s, v),
    decreases s.len(),
{
    if s.len() > 0 {
        lemma_sort_at_score(s.drop_last(), v);
        lemma_insert_at_score(sort_by_score(s.drop_last()), s.last(), v);
    }
}

proof fn lemma_scored_at_score(q: Seq<char>, repos: Seq<Seq<char>>, n: int, v: u32)
    requires
        0 <= n <= repos.len(),
    ensures
        at_score(scored_upto(q, repos, n), v) == scoring(repos.take(n), q, v),
    decreases n,
{
    if n == 0 {
        assert(repos.take(0) =~= Seq::<Seq<char>>::empty());
    } else {
        lemma_scored_at_score(q, repos, n - 1, v);
        let prev = scored_upto(q, repos, n - 1);
        let y = repos[n - 1];
        assert(repos.take(n).drop_last() =~= repos.take(n - 1));
        assert(repos.take(n).last() == y);
        match fuzzy_score_of(q, y) {
            Some(sc) => {
                assert(scored_upto(q, repos, n) =~= prev.push((sc, y)));
                assert(prev.push((sc, y)).drop_last() =~= prev);
            },
            None => {
                assert(scored_upto(q, repos, n) =~= prev);
            },
        }
    }
}

proof fn lemma_paths_scoring(t: Seq<(u32, Seq<char>)>, q: Seq<char>, v: u32)
    requires
        forall|k: int| 0 <= k < t.len() ==> fuzzy_score_of(q, (#[trigger] t[k]).1) == Some(t[k].0),
    ensures
        scoring(paths_of(t), q, v) == at_score(t, v),
    decreases t.len(),
{
    if t.len() > 0 {
        let p = t.drop_last();
        assert forall|k: int| 0 <= k < p.len() implies fuzzy_score_of(q, (#[trigger] p[k]).1) == Some(p[k].0) by {
            assert(p[k] == t[k]);
        }
        lemma_paths_scoring(p, q, v);
        assert(paths_of(t).drop_last() =~= paths_of(p));
        assert(paths_of(t).last() == t.last().1);
        assert(fuzzy_score_of(q, t[t.len() - 1].1) == Some(t[t.len() - 1].0));
    }
}

/// Repos that score the same keep the order they were given in: for every
/// score, the repos of the result with that score are, in order, the given
/// repos with that score.
pub proof fn lemma_fuzzy_match_keeps_ties_in_order(q: Seq<char>, repos: Seq<Seq<char>>, v: u32)
    requires
        q.len() > 0,
    ensures
        scoring(fuzzy_spec(q, repos), q, v) == scoring(repos, q, v),
{
    let n = repos.len() as int;
    let p = scored_upto(q, repos, n);
    lemma_scored_entries(q, repos, n);
    lemma_sort_by_score(p);
    let t = sort_by_score(p);
    assert forall|i: int| 0 <= i < t.len() implies fuzzy_score_of(q, (#[trigger] t[i]).1) == Some(t[i].0) by {
        assert(p.contains(t[i]));
        let k = choose|k: int| 0 <= k < p.len() && p[k] == t[i];
        assert(fuzzy_score_of(q, p[k].1) == Some(p[k].0));
    }
    lemma_paths_scoring(t, q, v);
    lemma_sort_at_score(p, v);
    lemma_scored_at_score(q, repos, n, v);
    assert(repos.take(n) =~= repos);
}

} // verus!
