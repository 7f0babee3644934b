//! The MCP tools' arguments: repo names matched against the cache without
//! regard to ASCII case, and the branch strategy named by a word.
use crate::paths::{name_or_empty, path_file_name};
use crate::removal::{quoted, quoted_spec};
use crate::text::{chars_of, dec, push_decimal, push_str, strings_view};
use crate::worktree::BranchStrategy;
use vstd::prelude::*;

verus! {

/// The code of `c` with an ASCII capital lowered.
pub open spec fn ascii_lower(c: char) -> u32 {
    if 65 <= (c as u32) && (c as u32) <= 90 {
        ((c as u32) + 32) as u32
    } else {
        c as u32
    }
}

/// `str::eq_ignore_ascii_case`.
pub open spec fn same_ignoring_ascii_case(a: Seq<char>, b: Seq<char>) -> bool {
    a.len() == b.len() && forall|i: int| 0 <= i < a.len() ==> ascii_lower(#[trigger] a[i]) == ascii_lower(b[i])
}

fn lower_char(c: char) -> (r: u32)
    ensures
        r == ascii_lower(c),
{
    let u: u32 = c as u32;
    if 65 <= u && u <= 90 {
        u + 32
    } else {
        u
    }
}

fn eq_ignore_case(a: &str, b: &str) -> (r: bool)
    ensures
        r == same_ignoring_ascii_case(a@, b@),
{
    let x = chars_of(a);
    let y = chars_of(b);
    if x.len() != y.len() {
        return false;
    }
    let mut i: usize = 0;
    while i < x.len()
        invariant
            0 <= i <= x.len(),
            x.len() == y.len(),
            x@ == a@,
            y@ == b@,
            forall|j: int| 0 <= j < i ==> ascii_lower(#[trigger] x@[j]) == ascii_lower(y@[j]),
        decreases x.len() - i,
    {
        if lower_char(x[i]) != lower_char(y[i]) {
            return false;
        }
        i = i + 1;
    }
    true
}

/// Whether the cached path `p` is a repo named `name`, ignoring ASCII case.
pub open spec fn named_like(p: Seq<char>, name: Seq<char>) -> bool {
    match crate::paths::file_name(p) {
        Some(n) => same_ignoring_ascii_case(n, name),
        None => false,
    }
}

/// The cached paths whose directory name is `name` but for ASCII case, in
/// cache order.
pub open spec fn like_named(cache: Seq<Seq<char>>, name: Seq<char>) -> Seq<Seq<char>>
    decreases cache.len(),
{
    if cache.len() == 0 {
        seq![]
    } else {
        like_named(cache.drop_last(), name) + (if named_like(cache.last(), name) {
            seq![cache.last()]
        } else {
            seq![]
        })
    }
}

/// Each name resolved to the one cached repo it names; the first name that
/// names none or several is the error.
pub open spec fn resolve_repos_spec(names: Seq<Seq<char>>, cache: Seq<Seq<char>>) -> Result<
    Seq<Seq<char>>,
    Seq<char>,
>
    decreases names.len(),
{
    if names.len() == 0 {
        Ok(seq![])
    } else {
        match resolve_repos_spec(names.drop_last(), cache) {
            Err(e) => Err(e),
            Ok(acc) => {
                let name = names.last();
                let ms = like_named(cache, name);
                if ms.len() == 0 {
                    Err("repo '"@ + name
                        + "' not found in cache. Run list_repos with refresh=true to rescan."@)
                } else if ms.len() == 1 {
                    Ok(acc.push(ms[0]))
                } else {
                    Err("repo '"@ + name + "' is ambiguous — matched "@ + dec(ms.len())
                        + " repos: ["@ + quoted_spec(ms) + "]"@)
                }
            },
        }
    }
}

pub open spec fn resolved_view(r: Result<Vec<String>, String>) -> Result<Seq<Seq<char>>, Seq<char>> {
    match r {
        Ok(v) => Ok(strings_view(v@)),
        Err(e) => Err(e@),
    }
}

fn like_named_vec(cache: &[String], name: &str) -> (r: Vec<String>)
    ensures
        strings_view(r@) == like_named(strings_view(cache@), name@),
{
    let mut r: Vec<String> = Vec::new();
    let mut i: usize = 0;
    while i < cache.len()
        invariant
            0 <= i <= cache.len(),
            strings_view(r@) == like_named(strings_view(cache@).subrange(0, i as int), name@),
        decreases cache.len() - i,
    {
        let ghost cv = strings_view(cache@);
        proof {
            assert(cv.subrange(0, i + 1).drop_last() =~= cv.subrange(0, i as int));
        }
        let hit = match path_file_name(cache[i].as_str()) {
            Some(n) => eq_ignore_case(n.as_str(), name),
            None => false,
        };
        if hit {
            let ghost old_r = strings_view(r@);
            r.push(cache[i].clone());
            assert(strings_view(r@) =~= old_r.push(cv[i as int]));
        } else {
            assert(like_named(cv.subrange(0, i + 1), name@) =~= like_named(cv.subrange(0, i as int), name@));
        }
        i = i + 1;
    }
    assert(strings_view(cache@).subrange(0, i as int) =~= strings_view(cache@));
    r
}

proof fn lemma_resolve_repos_error_stays(names: Seq<Seq<char>>, cache: Seq<Seq<char>>, k: int)
    requires
        0 <= k <= names.len(),
        resolve_repos_spec(names.subrange(0, k), cache) is Err,
    ensures
        resolve_repos_spec(names, cache) == resolve_repos_spec(names.subrange(0, k), cache),
    decreases names.len() - k,
{
    if k < names.len() {
        assert(names.subrange(0, k + 1).drop_last() =~= names.subrange(0, k));
        lemma_resolve_repos_error_stays(names, cache, k + 1);
    } else {
        assert(names.subrange(0, k) =~= names);
    }
}

/// Resolve repo names to cached repo paths, ignoring ASCII case. A name
/// that matches no cached repo, or several, is an error.
pub fn resolve_repos(names: &[String], cache: &[String]) -> (r: Result<Vec<String>, String>)
    requires
        cache.len() <= u64::MAX,
    ensures
        resolved_view(r) == resolve_repos_spec(strings_view(names@), strings_view(cache@)),
{
    let mut resolved: Vec<String> = Vec::new();
    let mut i: usize = 0;
    assert(strings_view(names@).subrange(0, 0) =~= Seq::<Seq<char>>::empty());
    assert(strings_view(resolved@) =~= Seq::<Seq<char>>::empty());
    while i < names.len()
        invariant
            0 <= i <= names.len(),
            cache.len() <= u64::MAX,
            resolve_repos_spec(strings_view(names@).subrange(0, i as int), strings_view(cache@))
                == Ok::<Seq<Seq<char>>, Seq<char>>(strings_view(resolved@)),
        decreases names.len() - i,
    {
        let ghost nv = strings_view(names@);
        proof {
            assert(nv.subrange(0, i + 1).drop_last() =~= nv.subrange(0, i as int));
            assert(nv.subrange(0, i + 1).last() == names@[i as int]@);
        }
        let name = names[i].as_str();
        let ms = like_named_vec(cache, name);
        if ms.len() == 0 {
            let mut m = String::from_str("repo '");
            push_str(&mut m, name);
            push_str(&mut m, "' not found in cache. Run list_repos with refresh=true to rescan.");
            proof {
                lemma_resolve_repos_error_stays(nv, strings_view(cache@), i + 1);
            }
            return Err(m);
        } else if ms.len() == 1 {
            let ghost old_r = strings_view(resolved@);
            resolved.push(ms[0].clone());
            assert(strings_view(resolved@) =~= old_r.push(ms@[0]@));
        } else {
            proof {
                lemma_like_named_len(strings_view(cache@), name@);
                lemma_resolve_repos_error_stays(nv, strings_view(cache@), i + 1);
            }
            let q = quoted(ms.as_slice());
            let mut m = String::from_str("repo '");
            push_str(&mut m, name);
            push_str(&mut m, "' is ambiguous — matched ");
            push_decimal(&mut m, ms.len() as u64);
            push_str(&mut m, " repos: [");
            push_str(&mut m, q.as_str());
            push_str(&mut m, "]");
            assert(m@ =~= "repo '"@ + name@ + "' is ambiguous — matched "@ + dec(ms@.len())
                + " repos: ["@ + q@ + "]"@);
            return Err(m);
        }
        i = i + 1;
    }
    assert(strings_view(names@).subrange(0, i as int) =~= strings_view(names@));
    Ok(resolved)
}

proof fn lemma_like_named_len(cache: Seq<Seq<char>>, name: Seq<char>)
    ensures
        like_named(cache, name).len() <= cache.len(),
    decreases cache.len(),
{
    if cache.len() > 0 {
        lemma_like_named_len(cache.drop_last(), name);
    }
}

/// The strategy a tool call names: `new` (on `branch`, else the workspace's
/// name), `existing` (on `branch`, which it requires) or `detached`.
pub open spec fn strategy_spec(strategy: Seq<char>, branch: Option<Seq<char>>, workspace: Seq<char>) -> Result<
    (int, Seq<char>),
    Seq<char>,
> {
    if strategy == "new"@ {
        Ok((0, match branch {
            Some(b) => b,
            None => workspace,
        }))
    } else if strategy == "existing"@ {
        match branch {
            Some(b) => Ok((1, b)),
            None => Err("branch name is required when strategy is 'existing'"@),
        }
    } else if strategy == "detached"@ {
        Ok((2, seq![]))
    } else {
        Err("unknown strategy '"@ + strategy + "'. Use 'new', 'existing', or 'detached'."@)
    }
}

/// A strategy as (which, branch): 0 new, 1 existing, 2 detached.
pub open spec fn strategy_view(s: BranchStrategy) -> (int, Seq<char>) {
    match s {
        BranchStrategy::NewBranch(b) => (0, b@),
        BranchStrategy::ExistingBranch(b) => (1, b@),
        BranchStrategy::DetachedHead => (2, seq![]),
    }
}

pub open spec fn strategy_result_view(r: Result<BranchStrategy, String>) -> Result<(int, Seq<char>), Seq<char>> {
    match r {
        Ok(s) => Ok(strategy_view(s)),
        Err(e) => Err(e@),
    }
}

fn text_is(s: &str, lit: &str) -> (r: bool)
    ensures
        r == (s@ == lit@),
{
    crate::text::same_text(s, lit)
}

/// The branch strategy a tool call names.
pub fn build_strategy(strategy: &str, branch: Option<&str>, workspace_name: &str) -> (r: Result<
    BranchStrategy,
    String,
>)
    ensures
        strategy_result_view(r) == strategy_spec(
            strategy@,
            match branch {
                Some(b) => Some(b@),
                None => None,
            },
            workspace_name@,
        ),
{
    if text_is(strategy, "new") {
        let b = match branch {
            Some(b) => b,
            None => workspace_name,
        };
        Ok(BranchStrategy::NewBranch(String::from_str(b)))
    } else if text_is(strategy, "existing") {
        match branch {
            Some(b) => Ok(BranchStrategy::ExistingBranch(String::from_str(b))),
            None => Err(String::from_str("branch name is required when strategy is 'existing'")),
        }
    } else if text_is(strategy, "detached") {
        Ok(BranchStrategy::DetachedHead)
    } else {
        let mut m = String::from_str("unknown strategy '");
        push_str(&mut m, strategy);
        push_str(&mut m, "'. Use 'new', 'existing', or 'detached'.");
        Err(m)
    }
}

/// The name and path a repo is listed with: its directory name (empty when
/// it has none) and its path.
pub fn repo_info(path: &str) -> (r: (String, String))
    ensures
        r.0@ == name_or_empty(path@),
        r.1@ == path@,
{
    (crate::cli::repo_name(path), String::from_str(path))
}

} // verus!
