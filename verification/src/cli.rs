//! The command line's repo arguments: resolving the names given to
//! `space create a b` and `space add ws a b` against the cached repo paths,
//! and the picker screens those commands open with them toggled on.
use crate::paths::{name_of, name_or_empty, path_eq, path_lt, path_less, path_same};
use crate::text::{chars_of, dec, push_decimal, push_str, same_text, strings_view};
use vstd::prelude::*;

verus! {

/// The directory name a repo is picked by: what `space repos` prints and
/// what the shell completion offers.
pub fn repo_name(path: &str) -> (r: String)
    ensures
        r@ == name_or_empty(path@),
{
    name_of(path)
}

/// What `str::to_lowercase` gives for `s`.
pub uninterp spec fn lowercase(s: Seq<char>) -> Seq<char>;

/// `str::to_lowercase`. Named: Unicode's lowercase mapping (one char may
/// map to several) takes its tables to state; the claim is only that the
/// result is a function of the text.
#[verifier::external_body]
fn to_lower(s: &str) -> (r: String)
    ensures
        r@ == lowercase(s@),
{
    s.to_lowercase()
}

/// The cached paths whose directory name is exactly `name`, in cache order.
pub open spec fn matches_of(repos: Seq<Seq<char>>, name: Seq<char>) -> Seq<Seq<char>>
    decreases repos.len(),
{
    if repos.len() == 0 {
        seq![]
    } else {
        matches_of(repos.drop_last(), name) + (if name_or_empty(repos.last()) == name {
            seq![repos.last()]
        } else {
            seq![]
        })
    }
}

/// `s` (sorted by path order) with `x` put after every element it does not
/// come before: one step of a stable sort.
pub open spec fn insert_sorted(s: Seq<Seq<char>>, x: Seq<char>) -> Seq<Seq<char>>
    decreases s.len(),
{
    if s.len() == 0 {
        seq![x]
    } else if path_less(x, s.last()) {
        insert_sorted(s.drop_last(), x).push(s.last())
    } else {
        s.push(x)
    }
}

/// `s` sorted stably by std's path order (`slice::sort`).
pub open spec fn sort_paths(s: Seq<Seq<char>>) -> Seq<Seq<char>>
    decreases s.len(),
{
    if s.len() == 0 {
        seq![]
    } else {
        insert_sorted(sort_paths(s.drop_last()), s.last())
    }
}

/// `s` with each run of equal paths cut to its first (`Vec::dedup`).
pub open spec fn dedup_paths(s: Seq<Seq<char>>) -> Seq<Seq<char>>
    decreases s.len(),
{
    if s.len() == 0 {
        seq![]
    } else {
        let d = dedup_paths(s.drop_last());
        if d.len() > 0 && path_same(s.last(), d.last()) {
            d
        } else {
            d.push(s.last())
        }
    }
}

/// The distinct repos a name names.
pub open spec fn named_repos(repos: Seq<Seq<char>>, name: Seq<char>) -> Seq<Seq<char>> {
    dedup_paths(sort_paths(matches_of(repos, name)))
}

/// A name that is a path, a scope or empty rather than a directory name.
pub open spec fn not_a_name(name: Seq<char>) -> bool {
    name.len() == 0 || name == "."@ || name == ".."@ || name.contains('/') || name.contains('\\')
}

/// The first cached repo's name that equals `lower` once lowercased.
pub open spec fn first_case_match(repos: Seq<Seq<char>>, lower: Seq<char>) -> Option<Seq<char>>
    decreases repos.len(),
{
    if repos.len() == 0 {
        None
    } else if lowercase(name_or_empty(repos[0])) == lower {
        Some(name_or_empty(repos[0]))
    } else {
        first_case_match(repos.drop_first(), lower)
    }
}

/// Why `name` names no repo.
pub open spec fn unknown_name_error(repos: Seq<Seq<char>>, name: Seq<char>) -> Seq<char> {
    if not_a_name(name) {
        "'"@ + name
            + "' is not a repo name; pass the directory name exactly as 'space repos' lists it, with no path or scope"@
    } else {
        match first_case_match(repos, lowercase(name)) {
            Some(near) => "no repo named '"@ + name
                + "' in the repo list; names are case-sensitive, did you mean '"@ + near + "'?"@,
            None => "no repo named '"@ + name
                + "' in the repo list (run 'space repos --refresh' to rescan)"@,
        }
    }
}

/// One line per path, each indented under the header.
pub open spec fn path_lines(ps: Seq<Seq<char>>) -> Seq<char>
    decreases ps.len(),
{
    if ps.len() == 0 {
        seq![]
    } else {
        path_lines(ps.drop_last()) + "\n  "@ + ps.last()
    }
}

/// Why `name` names several repos: each of them.
pub open spec fn ambiguous_name_error(name: Seq<char>, ms: Seq<Seq<char>>) -> Seq<char> {
    "'"@ + name + "' names "@ + dec(ms.len()) + " repos:"@ + path_lines(ms)
        + "\npick it in the picker instead"@
}

/// Whether `acc` holds a path equal to `p`.
pub open spec fn holds_path(acc: Seq<Seq<char>>, p: Seq<char>) -> bool {
    exists|i: int| 0 <= i < acc.len() && path_same(#[trigger] acc[i], p)
}

/// The resolution of the names given, in argument order, each once; the
/// first name that names no repo or several is the error.
pub open spec fn resolve_spec(repos: Seq<Seq<char>>, names: Seq<Seq<char>>) -> Result<
    Seq<Seq<char>>,
    Seq<char>,
>
    decreases names.len(),
{
    if names.len() == 0 {
        Ok(seq![])
    } else {
        match resolve_spec(repos, names.drop_last()) {
            Err(e) => Err(e),
            Ok(acc) => {
                let name = names.last();
                let ms = named_repos(repos, name);
                if ms.len() == 1 {
                    if holds_path(acc, ms[0]) {
                        Ok(acc)
                    } else {
                        Ok(acc.push(ms[0]))
                    }
                } else if ms.len() == 0 {
                    Err(unknown_name_error(repos, name))
                } else {
                    Err(ambiguous_name_error(name, ms))
                }
            },
        }
    }
}

pub open spec fn result_view(r: Result<Vec<String>, String>) -> Result<Seq<Seq<char>>, Seq<char>> {
    match r {
        Ok(v) => Ok(strings_view(v@)),
        Err(e) => Err(e@),
    }
}

fn matches_vec(repos: &[String], name: &str) -> (r: Vec<String>)
    ensures
        strings_view(r@) == matches_of(strings_view(repos@), name@),
{
    let mut r: Vec<String> = Vec::new();
    let mut i: usize = 0;
    while i < repos.len()
        invariant
            0 <= i <= repos.len(),
            strings_view(r@) == matches_of(strings_view(repos@).subrange(0, i as int), name@),
        decreases repos.len() - i,
    {
        let ghost rv = strings_view(repos@);
        proof {
            assert(rv.subrange(0, i + 1).drop_last() =~= rv.subrange(0, i as int));
        }
        let n = repo_name(repos[i].as_str());
        if same_text(n.as_str(), name) {
            let ghost old_r = strings_view(r@);
            r.push(repos[i].clone());
            assert(strings_view(r@) =~= old_r.push(repos@[i as int]@));
        } else {
            assert(matches_of(rv.subrange(0, i + 1), name@) =~= matches_of(
                rv.subrange(0, i as int),
                name@,
            ));
        }
        i = i + 1;
    }
    assert(strings_view(repos@).subrange(0, i as int) =~= strings_view(repos@));
    r
}

/// Insert `x` into `v`, sorted, as `insert_sorted` does.
fn insert_path(v: &mut Vec<String>, x: String)
    ensures
        strings_view(final(v)@) == insert_sorted(strings_view(old(v)@), x@),
    decreases old(v)@.len(),
{
    if v.len() == 0 {
        v.push(x);
        assert(strings_view(v@) =~= seq![x@]);
        return;
    }
    let last_is_after = path_lt(x.as_str(), v[v.len() - 1].as_str());
    let ghost ov = strings_view(v@);
    if last_is_after {
        let last = v.pop().unwrap();
        assert(strings_view(v@) =~= ov.drop_last());
        insert_path(v, x);
        let ghost mid = strings_view(v@);
        v.push(last);
        assert(strings_view(v@) =~= mid.push(ov.last()));
    } else {
        v.push(x);
        assert(strings_view(v@) =~= ov.push(x@));
    }
}

fn sorted_paths(ms: Vec<String>) -> (r: Vec<String>)
    ensures
        strings_view(r@) == sort_paths(strings_view(ms@)),
{
    let mut out: Vec<String> = Vec::new();
    let mut i: usize = 0;
    while i < ms.len()
        invariant
            0 <= i <= ms.len(),
            strings_view(out@) == sort_paths(strings_view(ms@).subrange(0, i as int)),
        decreases ms.len() - i,
    {
        let ghost mv = strings_view(ms@);
        proof {
            assert(mv.subrange(0, i + 1).drop_last() =~= mv.subrange(0, i as int));
        }
        insert_path(&mut out, ms[i].clone());
        i = i + 1;
    }
    assert(strings_view(ms@).subrange(0, i as int) =~= strings_view(ms@));
    out
}

fn deduped_paths(ms: Vec<String>) -> (r: Vec<String>)
    ensures
        strings_view(r@) == dedup_paths(strings_view(ms@)),
{
    let mut out: Vec<String> = Vec::new();
    let mut i: usize = 0;
    while i < ms.len()
        invariant
            0 <= i <= ms.len(),
            strings_view(out@) == dedup_paths(strings_view(ms@).subrange(0, i as int)),
        decreases ms.len() - i,
    {
        let ghost mv = strings_view(ms@);
        proof {
            assert(mv.subrange(0, i + 1).drop_last() =~= mv.subrange(0, i as int));
        }
        let ghost ov = strings_view(out@);
        let dup = out.len() > 0 && path_eq(ms[i].as_str(), out[out.len() - 1].as_str());
        if !dup {
            out.push(ms[i].clone());
            assert(strings_view(out@) =~= ov.push(mv[i as int]));
        }
        i = i + 1;
    }
    assert(strings_view(ms@).subrange(0, i as int) =~= strings_view(ms@));
    out
}

fn holds(acc: &Vec<String>, p: &str) -> (r: bool)
    ensures
        r == holds_path(strings_view(acc@), p@),
        !r ==> forall|j: int| 0 <= j < acc@.len() ==> (#[trigger] acc@[j])@ != p@,
{
    let mut i: usize = 0;
    while i < acc.len()
        invariant
            0 <= i <= acc.len(),
            forall|j: int| 0 <= j < i ==> !path_same(#[trigger] strings_view(acc@)[j], p@),
            forall|j: int| 0 <= j < i ==> (#[trigger] acc@[j])@ != p@,
        decreases acc.len() - i,
    {
        if path_eq(acc[i].as_str(), p) {
            assert(path_same(strings_view(acc@)[i as int], p@));
            return true;
        }
        i = i + 1;
    }
    false
}

fn has_separator_char(v: &Vec<char>) -> (r: bool)
    ensures
        r == (v@.contains('/') || v@.contains('\\')),
{
    let mut i: usize = 0;
    while i < v.len()
        invariant
            0 <= i <= v.len(),
            forall|j: int| 0 <= j < i ==> v@[j] != '/' && v@[j] != '\\',
        decreases v.len() - i,
    {
        if v[i] == '/' || v[i] == '\\' {
            assert(v@[i as int] == v@[i as int]);
            return true;
        }
        i = i + 1;
    }
    false
}

fn case_match(repos: &[String], lower: &str) -> (r: Option<String>)
    ensures
        match first_case_match(strings_view(repos@), lower@) {
            Some(n) => r matches Some(x) && x@ == n,
            None => r is None,
        },
{
    let mut i: usize = 0;
    assert(strings_view(repos@).skip(0) =~= strings_view(repos@));
    while i < repos.len()
        invariant
            0 <= i <= repos.len(),
            first_case_match(strings_view(repos@), lower@) == first_case_match(
                strings_view(repos@).skip(i as int),
                lower@,
            ),
        decreases repos.len() - i,
    {
        let ghost rest = strings_view(repos@).skip(i as int);
        let n = repo_name(repos[i].as_str());
        let l = to_lower(n.as_str());
        assert(rest[0] == repos@[i as int]@);
        if same_text(l.as_str(), lower) {
            return Some(n);
        }
        assert(rest.drop_first() =~= strings_view(repos@).skip(i + 1));
        i = i + 1;
    }
    None
}

fn unknown_name(repos: &[String], name: &str) -> (r: String)
    ensures
        r@ == unknown_name_error(strings_view(repos@), name@),
{
    let v = chars_of(name);
    proof {
        reveal_strlit(".");
        reveal_strlit("..");
    }
    let bad = v.len() == 0 || (v.len() == 1 && v[0] == '.') || (v.len() == 2 && v[0] == '.' && v[1]
        == '.') || has_separator_char(&v);
    proof {
        if v@.len() == 1 && v@[0] == '.' {
            assert(v@ =~= "."@);
        }
        if v@.len() == 2 && v@[0] == '.' && v@[1] == '.' {
            assert(v@ =~= ".."@);
        }
    }
    if bad {
        let mut m = String::from_str("'");
        push_str(&mut m, name);
        push_str(&mut m, "' is not a repo name; pass the directory name exactly as 'space repos' lists it, with no path or scope");
        return m;
    }
    let lower = to_lower(name);
    match case_match(repos, lower.as_str()) {
        Some(near) => {
            let mut m = String::from_str("no repo named '");
            push_str(&mut m, name);
            push_str(&mut m, "' in the repo list; names are case-sensitive, did you mean '");
            push_str(&mut m, near.as_str());
            push_str(&mut m, "'?");
            assert(m@ =~= "no repo named '"@ + name@
                + "' in the repo list; names are case-sensitive, did you mean '"@ + near@ + "'?"@);
            m
        },
        None => {
            let mut m = String::from_str("no repo named '");
            push_str(&mut m, name);
            push_str(&mut m, "' in the repo list (run 'space repos --refresh' to rescan)");
            m
        },
    }
}

fn ambiguous_name(name: &str, ms: &Vec<String>) -> (r: String)
    requires
        ms.len() <= u64::MAX,
    ensures
        r@ == ambiguous_name_error(name@, strings_view(ms@)),
{
    let mut m = String::from_str("'");
    push_str(&mut m, name);
    push_str(&mut m, "' names ");
    push_decimal(&mut m, ms.len() as u64);
    push_str(&mut m, " repos:");
    let ghost head = m@;
    let mut i: usize = 0;
    while i < ms.len()
        invariant
            0 <= i <= ms.len(),
            m@ == head + path_lines(strings_view(ms@).subrange(0, i as int)),
        decreases ms.len() - i,
    {
        let ghost mv = strings_view(ms@);
        proof {
            assert(mv.subrange(0, i + 1).drop_last() =~= mv.subrange(0, i as int));
        }
        push_str(&mut m, "\n  ");
        push_str(&mut m, ms[i].as_str());
        i = i + 1;
    }
    assert(strings_view(ms@).subrange(0, i as int) =~= strings_view(ms@));
    push_str(&mut m, "\npick it in the picker instead");
    m
}

/// Resolve the repo names given on the command line to cached repo paths,
/// each once, in argument order. A name must equal exactly one cached
/// repo's directory name, case-sensitively (two cache entries of one path
/// are one repo); a name that matches none, or several, is the error.
pub fn resolve_repo_names(repos: &[String], names: &[String]) -> (r: Result<Vec<String>, String>)
    requires
        repos.len() <= u64::MAX,
    ensures
        result_view(r) == resolve_spec(strings_view(repos@), strings_view(names@)),
        r matches Ok(v) ==> forall|a: int, b: int| 0 <= a < b < v@.len() ==> (#[trigger] v@[a])@ != (#[trigger] v@[b])@,
{
    let mut resolved: Vec<String> = Vec::new();
    let mut i: usize = 0;
    assert(strings_view(names@).subrange(0, 0) =~= Seq::<Seq<char>>::empty());
    assert(strings_view(resolved@) =~= Seq::<Seq<char>>::empty());
    while i < names.len()
        invariant
            0 <= i <= names.len(),
            repos.len() <= u64::MAX,
            resolve_spec(strings_view(repos@), strings_view(names@).subrange(0, i as int)) == Ok::<
                Seq<Seq<char>>,
                Seq<char>,
            >(strings_view(resolved@)),
            forall|a: int, b: int| 0 <= a < b < resolved@.len() ==> (#[trigger] resolved@[a])@ != (#[trigger] resolved@[b])@,
        decreases names.len() - i,
    {
        let ghost nv = strings_view(names@);
        proof {
            assert(nv.subrange(0, i + 1).drop_last() =~= nv.subrange(0, i as int));
            assert(nv.subrange(0, i + 1).last() == names@[i as int]@);
        }
        let name = names[i].as_str();
        let ms = deduped_paths(sorted_paths(matches_vec(repos, name)));
        if ms.len() == 1 {
            if !holds(&resolved, ms[0].as_str()) {
                let ghost old_r = strings_view(resolved@);
                resolved.push(ms[0].clone());
                assert(strings_view(resolved@) =~= old_r.push(ms@[0]@));
            }
        } else if ms.len() == 0 {
            proof {
                lemma_resolve_error_stays(strings_view(repos@), strings_view(names@), i + 1);
            }
            return Err(unknown_name(repos, name));
        } else {
            proof {
                lemma_matches_len(strings_view(repos@), name@);
                lemma_sort_len(matches_of(strings_view(repos@), name@));
                lemma_dedup_len(sort_paths(matches_of(strings_view(repos@), name@)));
                lemma_resolve_error_stays(strings_view(repos@), strings_view(names@), i + 1);
            }
            return Err(ambiguous_name(name, &ms));
        }
        i = i + 1;
    }
    assert(strings_view(names@).subrange(0, i as int) =~= strings_view(names@));
    Ok(resolved)
}

proof fn lemma_matches_len(repos: Seq<Seq<char>>, name: Seq<char>)
    ensures
        matches_of(repos, name).len() <= repos.len(),
    decreases repos.len(),
{
    if repos.len() > 0 {
        lemma_matches_len(repos.drop_last(), name);
    }
}

proof fn lemma_insert_len(s: Seq<Seq<char>>, x: Seq<char>)
    ensures
        insert_sorted(s, x).len() == s.len() + 1,
    decreases s.len(),
{
    if s.len() > 0 {
        lemma_insert_len(s.drop_last(), x);
    }
}

proof fn lemma_sort_len(s: Seq<Seq<char>>)
    ensures
        sort_paths(s).len() == s.len(),
    decreases s.len(),
{
    if s.len() > 0 {
        lemma_sort_len(s.drop_last());
        lemma_insert_len(sort_paths(s.drop_last()), s.last());
    }
}

proof fn lemma_dedup_len(s: Seq<Seq<char>>)
    ensures
        dedup_paths(s).len() <= s.len(),
    decreases s.len(),
{
    if s.len() > 0 {
        lemma_dedup_len(s.drop_last());
    }
}

/// Once a prefix of the names fails, the whole list fails the same way.
proof fn lemma_resolve_error_stays(repos: Seq<Seq<char>>, names: Seq<Seq<char>>, k: int)
    requires
        0 <= k <= names.len(),
        resolve_spec(repos, names.subrange(0, k)) is Err,
    ensures
        resolve_spec(repos, names) == resolve_spec(repos, names.subrange(0, k)),
    decreases names.len() - k,
{
    if k < names.len() {
        assert(names.subrange(0, k + 1).drop_last() =~= names.subrange(0, k));
        lemma_resolve_error_stays(repos, names, k + 1);
    } else {
        assert(names.subrange(0, k) =~= names);
    }
}

/// One row of the repo picker.
pub struct PickerItem {
    /// The repo's directory name, which the picker shows and matches.
    pub name: String,
    /// The repo's path.
    pub full_path: String,
}

/// A repo picker: every row, the rows toggled on (by index), and the typed
/// query.
pub struct Picker {
    pub all_items: Vec<PickerItem>,
    pub toggled: Vec<usize>,
    pub query: String,
}

/// The rows of `paths` below `n` that are toggled on: those whose path is
/// one of the preselected ones.
pub open spec fn toggled_upto(paths: Seq<Seq<char>>, pre: Seq<Seq<char>>, n: int) -> Seq<int>
    decreases n,
{
    if n <= 0 {
        seq![]
    } else {
        toggled_upto(paths, pre, n - 1) + (if holds_path(pre, paths[n - 1]) {
            seq![n - 1]
        } else {
            seq![]
        })
    }
}

pub open spec fn index_view(v: Seq<usize>) -> Seq<int> {
    v.map_values(|i: usize| i as int)
}

/// The picker over `paths` with the preselected paths toggled on and no
/// query typed.
pub open spec fn picker_spec(p: Picker, paths: Seq<Seq<char>>, pre: Seq<Seq<char>>) -> bool {
    &&& p.all_items@.len() == paths.len()
    &&& forall|i: int|
        0 <= i < paths.len() ==> (#[trigger] p.all_items@[i]).full_path@ == paths[i]
            && p.all_items@[i].name@ == name_or_empty(paths[i])
    &&& index_view(p.toggled@) == toggled_upto(paths, pre, paths.len() as int)
    &&& p.query@.len() == 0
}

impl Picker {
    /// A picker over `paths` with `preselected` toggled on.
    pub fn new(paths: Vec<String>, preselected: &Vec<String>) -> (r: Self)
        ensures
            picker_spec(r, strings_view(paths@), strings_view(preselected@)),
    {
        let mut items: Vec<PickerItem> = Vec::new();
        let mut toggled: Vec<usize> = Vec::new();
        let mut i: usize = 0;
        while i < paths.len()
            invariant
                0 <= i <= paths.len(),
                items@.len() == i,
                forall|j: int|
                    0 <= j < i ==> (#[trigger] items@[j]).full_path@ == paths@[j]@
                        && items@[j].name@ == name_or_empty(paths@[j]@),
                index_view(toggled@) == toggled_upto(
                    strings_view(paths@),
                    strings_view(preselected@),
                    i as int,
                ),
            decreases paths.len() - i,
        {
            let p = &paths[i];
            let on = holds(preselected, p.as_str());
            let ghost old_t = index_view(toggled@);
            if on {
                toggled.push(i);
                assert(index_view(toggled@) =~= old_t.push(i as int));
            }
            assert(strings_view(paths@)[i as int] == paths@[i as int]@);
            items.push(PickerItem { name: repo_name(p.as_str()), full_path: p.clone() });
            i = i + 1;
        }
        Picker { all_items: items, toggled, query: String::new() }
    }
}

/// The screen `space create <names...>` opens.
pub struct CreateState {
    pub picker: Picker,
}

/// The screen `space create <names...>` opens: the whole cache in the
/// picker, with the names resolved against it and toggled on.
pub fn create_screen(repos_cache: Vec<String>, names: &[String]) -> (r: Result<CreateState, String>)
    requires
        repos_cache.len() <= u64::MAX,
    ensures
        match resolve_spec(strings_view(repos_cache@), strings_view(names@)) {
            Err(e) => r matches Err(x) && x@ == e,
            Ok(pre) => r matches Ok(st) && picker_spec(st.picker, strings_view(repos_cache@), pre),
        },
{
    let pre = resolve_repo_names(repos_cache.as_slice(), names)?;
    Ok(CreateState { picker: Picker::new(repos_cache, &pre) })
}

/// The screen `space add <workspace> <names...>` opens.
pub struct AddState {
    pub workspace: String,
    pub picker: Picker,
}

/// Whether `held` holds the text `n`.
pub open spec fn held_name(held: Seq<Seq<char>>, n: Seq<char>) -> bool {
    held.contains(n)
}

/// The first preselected path whose repo the workspace already holds.
pub open spec fn first_held(pre: Seq<Seq<char>>, held: Seq<Seq<char>>) -> Option<Seq<char>>
    decreases pre.len(),
{
    if pre.len() == 0 {
        None
    } else if held_name(held, name_or_empty(pre[0])) {
        Some(pre[0])
    } else {
        first_held(pre.drop_first(), held)
    }
}

/// The cached paths whose repo the workspace does not hold yet.
pub open spec fn available_spec(cache: Seq<Seq<char>>, held: Seq<Seq<char>>) -> Seq<Seq<char>>
    decreases cache.len(),
{
    if cache.len() == 0 {
        seq![]
    } else {
        available_spec(cache.drop_last(), held) + (if held_name(held, name_or_empty(cache.last())) {
            seq![]
        } else {
            seq![cache.last()]
        })
    }
}

fn held_has(held: &[String], n: &str) -> (r: bool)
    ensures
        r == held_name(strings_view(held@), n@),
{
    let mut i: usize = 0;
    while i < held.len()
        invariant
            0 <= i <= held.len(),
            forall|j: int| 0 <= j < i ==> held@[j]@ != n@,
        decreases held.len() - i,
    {
        if same_text(held[i].as_str(), n) {
            assert(strings_view(held@)[i as int] == n@);
            return true;
        }
        i = i + 1;
    }
    proof {
        if strings_view(held@).contains(n@) {
            let j = choose|j: int| 0 <= j < held@.len() && strings_view(held@)[j] == n@;
            assert(held@[j]@ == n@);
        }
    }
    false
}

/// The screen `space add <workspace> <names...>` opens. `held` are the
/// names of the repos the workspace already has. Names resolve against the
/// whole cache first, so a held repo is reported as held rather than
/// unknown; the held repos are then left out of the picker.
pub fn add_screen(workspace: &str, held: &[String], repos_cache: &[String], names: &[String]) -> (r:
    Result<AddState, String>)
    requires
        repos_cache.len() <= u64::MAX,
    ensures
        match resolve_spec(strings_view(repos_cache@), strings_view(names@)) {
            Err(e) => r matches Err(x) && x@ == e,
            Ok(pre) => match first_held(pre, strings_view(held@)) {
                Some(p) => r matches Err(x) && x@ == "repo '"@ + name_or_empty(p)
                    + "' is already in workspace '"@ + workspace@ + "'"@,
                None => r matches Ok(st) && st.workspace@ == workspace@ && picker_spec(
                    st.picker,
                    available_spec(strings_view(repos_cache@), strings_view(held@)),
                    pre,
                ),
            },
        },
{
    let pre = resolve_repo_names(repos_cache, names)?;
    let mut i: usize = 0;
    assert(strings_view(pre@).skip(0) =~= strings_view(pre@));
    while i < pre.len()
        invariant
            0 <= i <= pre.len(),
            first_held(strings_view(pre@), strings_view(held@)) == first_held(
                strings_view(pre@).skip(i as int),
                strings_view(held@),
            ),
            resolve_spec(strings_view(repos_cache@), strings_view(names@)) == Ok::<
                Seq<Seq<char>>,
                Seq<char>,
            >(strings_view(pre@)),
        decreases pre.len() - i,
    {
        let ghost rest = strings_view(pre@).skip(i as int);
        assert(rest[0] == pre@[i as int]@);
        let n = repo_name(pre[i].as_str());
        if held_has(held, n.as_str()) {
            let mut m = String::from_str("repo '");
            push_str(&mut m, n.as_str());
            push_str(&mut m, "' is already in workspace '");
            push_str(&mut m, workspace);
            push_str(&mut m, "'");
            assert(m@ =~= "repo '"@ + n@ + "' is already in workspace '"@ + workspace@ + "'"@);
            return Err(m);
        }
        assert(rest.drop_first() =~= strings_view(pre@).skip(i + 1));
        i = i + 1;
    }
    let mut available: Vec<String> = Vec::new();
    let mut j: usize = 0;
    while j < repos_cache.len()
        invariant
            0 <= j <= repos_cache.len(),
            strings_view(available@) == available_spec(
                strings_view(repos_cache@).subrange(0, j as int),
                strings_view(held@),
            ),
        decreases repos_cache.len() - j,
    {
        let ghost cv = strings_view(repos_cache@);
        proof {
            assert(cv.subrange(0, j + 1).drop_last() =~= cv.subrange(0, j as int));
        }
        let n = repo_name(repos_cache[j].as_str());
        if !held_has(held, n.as_str()) {
            let ghost old_a = strings_view(available@);
            available.push(repos_cache[j].clone());
            assert(strings_view(available@) =~= old_a.push(cv[j as int]));
        } else {
            assert(available_spec(cv.subrange(0, j + 1), strings_view(held@)) =~= available_spec(
                cv.subrange(0, j as int),
                strings_view(held@),
            ));
        }
        j = j + 1;
    }
    assert(strings_view(repos_cache@).subrange(0, j as int) =~= strings_view(repos_cache@));
    Ok(AddState { workspace: String::from_str(workspace), picker: Picker::new(available, &pre) })
}

proof fn lemma_insert_sorted_members(s: Seq<Seq<char>>, x: Seq<char>, y: Seq<char>)
    ensures
        insert_sorted(s, x).contains(y) <==> (s.contains(y) || y == x),
    decreases s.len(),
{
    if s.len() > 0 && path_less(x, s.last()) {
        lemma_insert_sorted_members(s.drop_last(), x, y);
        let t = insert_sorted(s.drop_last(), x);
        assert(s =~= s.drop_last().push(s.last()));
        if t.push(s.last()).contains(y) && !t.contains(y) {
            assert(y == s.last());
            assert(s[s.len() - 1] == y);
        }
        if s.contains(y) {
            let k = choose|k: int| 0 <= k < s.len() && s[k] == y;
            if k < s.len() - 1 {
                assert(s.drop_last()[k] == y);
            } else {
                assert(t.push(s.last())[t.len() as int] == y);
            }
        }
        if t.contains(y) {
            let k = choose|k: int| 0 <= k < t.len() && t[k] == y;
            assert(t.push(s.last())[k] == y);
        }
        if s.drop_last().contains(y) {
            let k = choose|k: int| 0 <= k < s.drop_last().len() && s.drop_last()[k] == y;
            assert(s[k] == y);
        }
    } else if s.len() > 0 {
        if s.push(x).contains(y) && y != x {
            let k = choose|k: int| 0 <= k < s.push(x).len() && s.push(x)[k] == y;
            assert(s[k] == y);
        }
        if s.contains(y) {
            let k = choose|k: int| 0 <= k < s.len() && s[k] == y;
            assert(s.push(x)[k] == y);
        }
        if y == x {
            assert(s.push(x)[s.len() as int] == y);
        }
    } else {
        if y == x {
            assert(seq![x][0] == y);
        }
    }
}

proof fn lemma_sort_members(s: Seq<Seq<char>>, y: Seq<char>)
    ensures
        sort_paths(s).contains(y) <==> s.contains(y),
    decreases s.len(),
{
    if s.len() > 0 {
        lemma_sort_members(s.drop_last(), y);
        lemma_insert_sorted_members(sort_paths(s.drop_last()), s.last(), y);
        if s.contains(y) && y != s.last() {
            let k = choose|k: int| 0 <= k < s.len() && s[k] == y;
            assert(s.drop_last()[k] == y);
        }
        if s.drop_last().contains(y) {
            let k = choose|k: int| 0 <= k < s.drop_last().len() && s.drop_last()[k] == y;
            assert(s[k] == y);
        }
        if y == s.last() {
            assert(s[s.len() - 1] == y);
        }
    }
}

proof fn lemma_dedup_members(s: Seq<Seq<char>>, y: Seq<char>)
    ensures
        dedup_paths(s).contains(y) ==> s.contains(y),
    decreases s.len(),
{
    if s.len() > 0 {
        lemma_dedup_members(s.drop_last(), y);
        let d = dedup_paths(s.drop_last());
        if d.push(s.last()).contains(y) {
            let k = choose|k: int| 0 <= k < d.push(s.last()).len() && d.push(s.last())[k] == y;
            if k < d.len() {
                assert(d[k] == y);
            } else {
                assert(s[s.len() - 1] == y);
            }
        }
        if s.drop_last().contains(y) {
            let k = choose|k: int| 0 <= k < s.drop_last().len() && s.drop_last()[k] == y;
            assert(s[k] == y);
        }
    }
}

proof fn lemma_matches_members(repos: Seq<Seq<char>>, name: Seq<char>, y: Seq<char>)
    ensures
        matches_of(repos, name).contains(y) ==> repos.contains(y) && name_or_empty(y) == name,
    decreases repos.len(),
{
    if repos.len() > 0 {
        lemma_matches_members(repos.drop_last(), name, y);
        let m = matches_of(repos.drop_last(), name);
        if matches_of(repos, name).contains(y) {
            let k = choose|k: int| 0 <= k < matches_of(repos, name).len() && matches_of(repos, name)[k] == y;
            if k < m.len() {
                assert(m[k] == y);
                let j = choose|j: int| 0 <= j < repos.drop_last().len() && repos.drop_last()[j] == y;
                assert(repos[j] == y);
            } else {
                assert(repos[repos.len() - 1] == y);
            }
        }
    }
}

/// That std's path equality is an equivalence, as `Path: Eq` documents.
pub open spec fn path_same_is_equivalence() -> bool {
    &&& forall|a: Seq<char>| #[trigger] path_same(a, a)
    &&& forall|a: Seq<char>, b: Seq<char>| #[trigger] path_same(a, b) ==> path_same(b, a)
    &&& forall|a: Seq<char>, b: Seq<char>, c: Seq<char>|
        #![trigger path_same(a, b), path_same(b, c)]
        path_same(a, b) && path_same(b, c) ==> path_same(a, c)
}

/// Whether the paths `ms` are one repo: at least one, and every two of
/// them the same path.
pub open spec fn one_repo(ms: Seq<Seq<char>>) -> bool {
    ms.len() > 0 && forall|a: Seq<char>, b: Seq<char>| #[trigger] ms.contains(a) && #[trigger] ms.contains(b) ==> path_same(a, b)
}

proof fn lemma_dedup_empty(s: Seq<Seq<char>>)
    ensures
        dedup_paths(s).len() == 0 <==> s.len() == 0,
    decreases s.len(),
{
    if s.len() > 0 {
        lemma_dedup_empty(s.drop_last());
    }
}

proof fn lemma_dedup_one(s: Seq<Seq<char>>)
    requires
        path_same_is_equivalence(),
    ensures
        dedup_paths(s).len() == 1 <==> one_repo(s),
    decreases s.len(),
{
    if s.len() == 0 {
        return;
    }
    let p = s.drop_last();
    let x = s.last();
    let d = dedup_paths(p);
    lemma_dedup_one(p);
    lemma_dedup_empty(p);
    assert(s =~= p.push(x));
    assert forall|a: Seq<char>| s.contains(a) <==> (p.contains(a) || a == x) by {
        if s.contains(a) {
            let k = choose|k: int| 0 <= k < s.len() && s[k] == a;
            if k < p.len() {
                assert(p[k] == a);
            }
        }
        if p.contains(a) {
            let k = choose|k: int| 0 <= k < p.len() && p[k] == a;
            assert(s[k] == a);
        }
        if a == x {
            assert(s[s.len() - 1] == a);
        }
    }
    if d.len() > 0 {
        assert(d.contains(d.last()));
        lemma_dedup_members(p, d.last());
        assert(p.contains(d.last()));
    }
    if d.len() > 0 && path_same(x, d.last()) {
        let m = d.last();
        if one_repo(p) {
            assert forall|a: Seq<char>, b: Seq<char>| #[trigger] s.contains(a) && #[trigger] s.contains(b) implies path_same(a, b) by {
                if p.contains(a) {
                    assert(path_same(a, m));
                    assert(path_same(m, x));
                    assert(path_same(a, x));
                }
                if p.contains(b) {
                    assert(path_same(b, m));
                    assert(path_same(m, b));
                    assert(path_same(x, m));
                    assert(path_same(x, b));
                }
                if a == x && b == x {
                    assert(path_same(x, x));
                }
                if p.contains(a) && p.contains(b) {
                    assert(path_same(a, b));
                }
                if p.contains(a) && b == x {
                    assert(path_same(a, x));
                }
            }
        }
        if one_repo(s) {
            assert forall|a: Seq<char>, b: Seq<char>| #[trigger] p.contains(a) && #[trigger] p.contains(b) implies path_same(a, b) by {
                assert(s.contains(a) && s.contains(b));
            }
        }
    } else {
        if p.len() == 0 {
            assert forall|a: Seq<char>, b: Seq<char>| #[trigger] s.contains(a) && #[trigger] s.contains(b) implies path_same(a, b) by {
                assert(a == x && b == x);
            }
        } else {
            assert(s.contains(x) && s.contains(d.last()));
            assert(!path_same(x, d.last()));
        }
    }
}

proof fn lemma_sort_one(s: Seq<Seq<char>>)
    ensures
        one_repo(sort_paths(s)) <==> one_repo(s),
{
    lemma_sort_len(s);
    assert forall|a: Seq<char>| sort_paths(s).contains(a) <==> s.contains(a) by {
        lemma_sort_members(s, a);
    }
    let t = sort_paths(s);
    if one_repo(s) {
        assert forall|a: Seq<char>, b: Seq<char>| #[trigger] t.contains(a) && #[trigger] t.contains(b) implies path_same(a, b) by {
            assert(s.contains(a) && s.contains(b));
        }
    }
    if one_repo(t) {
        assert forall|a: Seq<char>, b: Seq<char>| #[trigger] s.contains(a) && #[trigger] s.contains(b) implies path_same(a, b) by {
            assert(t.contains(a) && t.contains(b));
        }
    }
}

/// The names resolve exactly when each of them names one repo: the cache
/// paths whose directory name is that name exactly are at least one, and
/// all the same path (a path cached twice is one repo). This rests on
/// std's path equality being an equivalence.
pub proof fn lemma_names_resolve_when_each_names_one_repo(repos: Seq<Seq<char>>, names: Seq<Seq<char>>)
    requires
        path_same_is_equivalence(),
    ensures
        resolve_spec(repos, names) is Ok <==> forall|k: int|
            0 <= k < names.len() ==> one_repo(matches_of(repos, #[trigger] names[k])),
    decreases names.len(),
{
    if names.len() > 0 {
        let init = names.drop_last();
        let name = names.last();
        lemma_names_resolve_when_each_names_one_repo(repos, init);
        lemma_sort_one(matches_of(repos, name));
        lemma_dedup_one(sort_paths(matches_of(repos, name)));
        if resolve_spec(repos, names) is Ok {
            assert forall|k: int| 0 <= k < names.len() implies one_repo(matches_of(repos, #[trigger] names[k])) by {
                if k < init.len() {
                    assert(init[k] == names[k]);
                }
            }
        }
        if forall|k: int| 0 <= k < names.len() ==> one_repo(matches_of(repos, #[trigger] names[k])) {
            assert forall|k: int| 0 <= k < init.len() implies one_repo(matches_of(repos, #[trigger] init[k])) by {
                assert(init[k] == names[k]);
            }
            assert(one_repo(matches_of(repos, names[names.len() - 1])));
        }
    }
}

/// What a resolved name stands for: each resolved path is the one repo
/// that some name given names, a path of the cache whose directory name is
/// that name exactly; there are no more paths than names.
pub proof fn lemma_resolved_repos_come_from_the_names(repos: Seq<Seq<char>>, names: Seq<Seq<char>>)
    ensures
        resolve_spec(repos, names) matches Ok(v) ==> v.len() <= names.len() && forall|i: int|
            0 <= i < v.len() ==> exists|k: int|
                0 <= k < names.len() && named_repos(repos, names[k]) == seq![#[trigger] v[i]]
                    && repos.contains(v[i]) && name_or_empty(v[i]) == names[k],
    decreases names.len(),
{
    if names.len() > 0 {
        let init = names.drop_last();
        lemma_resolved_repos_come_from_the_names(repos, init);
        if let Ok(v) = resolve_spec(repos, names) {
            let acc = resolve_spec(repos, init)->Ok_0;
            let name = names.last();
            let ms = named_repos(repos, name);
            assert(ms.len() == 1);
            let last = names.len() - 1;
            lemma_dedup_members(sort_paths(matches_of(repos, name)), ms[0]);
            assert(ms.contains(ms[0]));
            lemma_sort_members(matches_of(repos, name), ms[0]);
            lemma_matches_members(repos, name, ms[0]);
            assert(ms =~= seq![ms[0]]);
            assert forall|i: int| 0 <= i < v.len() implies exists|k: int|
                0 <= k < names.len() && named_repos(repos, names[k]) == seq![#[trigger] v[i]]
                    && repos.contains(v[i]) && name_or_empty(v[i]) == names[k] by {
                if i < acc.len() {
                    assert(v[i] == acc[i]);
                    let k = choose|k: int|
                        0 <= k < init.len() && named_repos(repos, init[k]) == seq![#[trigger] acc[i]]
                            && repos.contains(acc[i]) && name_or_empty(acc[i]) == init[k];
                    assert(init[k] == names[k]);
                } else {
                    assert(v[i] == ms[0]);
                    assert(names[last] == name);
                }
            }
        }
    }
}

/// Names resolve to distinct repos: no resolved path equals (as a path) one
/// resolved before it, however often a name is repeated, and `Ok` only when
/// every name named exactly one repo.
pub proof fn lemma_resolved_repos_are_distinct(repos: Seq<Seq<char>>, names: Seq<Seq<char>>)
    ensures
        resolve_spec(repos, names) matches Ok(v) ==> forall|i: int, j: int|
            0 <= i < j < v.len() ==> !path_same(#[trigger] v[i], #[trigger] v[j]),
        resolve_spec(repos, names) is Ok ==> forall|k: int|
            0 <= k < names.len() ==> #[trigger] named_repos(repos, names[k]).len() == 1,
    decreases names.len(),
{
    if names.len() > 0 {
        lemma_resolved_repos_are_distinct(repos, names.drop_last());
        if resolve_spec(repos, names) is Ok {
            assert forall|k: int| 0 <= k < names.len() implies #[trigger] named_repos(
                repos,
                names[k],
            ).len() == 1 by {
                if k < names.len() - 1 {
                    assert(names.drop_last()[k] == names[k]);
                }
            }
        }
    }
}

} // verus!
