//! The lines `space complete` prints for zsh's `_describe`: `value:description`,
//! with the value's colons and backslashes escaped.
use crate::cli::repo_name;
use crate::paths::name_or_empty;
use crate::text::{chars_of, dec, matches_at, occurs_at, push_char, push_chars, push_decimal, push_str, same_text, strings_view};
use vstd::prelude::*;

verus! {

/// `s` with `\` doubled and `:` escaped as `\:`.
pub open spec fn zsh_escaped(s: Seq<char>) -> Seq<char>
    decreases s.len(),
{
    if s.len() == 0 {
        seq![]
    } else {
        zsh_escaped(s.drop_last()) + (if s.last() == '\\' {
            seq!['\\', '\\']
        } else if s.last() == ':' {
            seq!['\\', ':']
        } else {
            seq![s.last()]
        })
    }
}

/// Escape colons (zsh `_describe`'s delimiter) and backslashes.
pub fn zsh_escape(s: &str) -> (r: String)
    ensures
        r@ == zsh_escaped(s@),
{
    let v = chars_of(s);
    let mut out = String::new();
    let mut i: usize = 0;
    while i < v.len()
        invariant
            0 <= i <= v.len(),
            v@ == s@,
            out@ == zsh_escaped(v@.subrange(0, i as int)),
        decreases v.len() - i,
    {
        proof {
            assert(v@.subrange(0, i + 1).drop_last() =~= v@.subrange(0, i as int));
        }
        let c = v[i];
        if c == '\\' {
            push_char(&mut out, '\\');
            push_char(&mut out, '\\');
        } else if c == ':' {
            push_char(&mut out, '\\');
            push_char(&mut out, ':');
        } else {
            push_char(&mut out, c);
        }
        i = i + 1;
        assert(out@ =~= zsh_escaped(v@.subrange(0, i as int)));
    }
    assert(v@.subrange(0, i as int) =~= s@);
    out
}

/// `s.replace(from, to)`: every leftmost non-overlapping occurrence of a
/// non-empty `from` replaced; an empty `from` matches before every char and
/// at the end.
pub open spec fn replaced(s: Seq<char>, from: Seq<char>, to: Seq<char>) -> Seq<char>
    decreases s.len(),
{
    if from.len() == 0 {
        if s.len() == 0 {
            to
        } else {
            to + seq![s[0]] + replaced(s.drop_first(), from, to)
        }
    } else if s.len() == 0 {
        seq![]
    } else if from.len() <= s.len() && s.subrange(0, from.len() as int) == from {
        to + replaced(s.skip(from.len() as int), from, to)
    } else {
        seq![s[0]] + replaced(s.drop_first(), from, to)
    }
}

/// `str::replace`.
pub fn replace_all(s: &str, from: &str, to: &str) -> (r: String)
    ensures
        r@ == replaced(s@, from@, to@),
{
    let v = chars_of(s);
    let f = chars_of(from);
    let mut out = String::new();
    let mut i: usize = 0;
    assert(v@.skip(0) =~= s@);
    assert(out@ + replaced(v@.skip(0), f@, to@) =~= replaced(s@, from@, to@));
    while i < v.len()
        invariant
            0 <= i <= v.len(),
            v@ == s@,
            f@ == from@,
            out@ + replaced(v@.skip(i as int), f@, to@) == replaced(s@, from@, to@),
        decreases v.len() - i,
    {
        let ghost rest = v@.skip(i as int);
        let ghost old_out = out@;
        if f.len() == 0 {
            push_str(&mut out, to);
            push_char(&mut out, v[i]);
            assert(rest.drop_first() =~= v@.skip(i + 1));
            assert(replaced(rest, f@, to@) == to@ + seq![rest[0]] + replaced(rest.drop_first(), f@, to@));
            i = i + 1;
            assert(out@ + replaced(v@.skip(i as int), f@, to@) =~= old_out + replaced(rest, f@, to@));
        } else if matches_at(v.as_slice(), f.as_slice(), i) {
            proof {
                assert(rest.subrange(0, f@.len() as int) =~= f@);
                assert(rest.skip(f@.len() as int) =~= v@.skip(i + f@.len()));
            }
            push_str(&mut out, to);
            i = i + f.len();
            assert(out@ + replaced(v@.skip(i as int), f@, to@) =~= old_out + replaced(rest, f@, to@));
        } else {
            proof {
                if f@.len() <= rest.len() && rest.subrange(0, f@.len() as int) == f@ {
                    assert forall|k: int| 0 <= k < f@.len() implies v@[i + k] == f@[k] by {
                        assert(rest.subrange(0, f@.len() as int)[k] == rest[k]);
                    }
                    assert(v@.subrange(i as int, i + f@.len()) =~= f@);
                    assert(occurs_at(v@, f@, i as int));
                }
            }
            push_char(&mut out, v[i]);
            assert(rest.drop_first() =~= v@.skip(i + 1));
            i = i + 1;
            assert(out@ + replaced(v@.skip(i as int), f@, to@) =~= old_out + replaced(rest, f@, to@));
        }
    }
    if f.len() == 0 {
        push_str(&mut out, to);
    }
    proof {
        assert(v@.skip(i as int).len() == 0);
    }
    out
}

/// The completion line of a workspace whose repos are on `branches`: its
/// escaped name, then the first repo's branch (`empty` for none) and the
/// repo count.
pub open spec fn workspace_line_spec(name: Seq<char>, branches: Seq<Seq<char>>) -> Seq<char> {
    zsh_escaped(name) + ":"@ + (if branches.len() > 0 {
        branches[0]
    } else {
        "empty"@
    }) + " · "@ + dec(branches.len()) + " repo"@ + (if branches.len() == 1 {
        seq![]
    } else {
        "s"@
    })
}

/// `name:branch · N repos`.
pub fn workspace_line(name: &str, branches: &[String]) -> (r: String)
    requires
        branches.len() <= u64::MAX,
    ensures
        r@ == workspace_line_spec(name@, strings_view(branches@)),
{
    let mut m = zsh_escape(name);
    push_str(&mut m, ":");
    if branches.len() > 0 {
        push_str(&mut m, branches[0].as_str());
    } else {
        push_str(&mut m, "empty");
    }
    push_str(&mut m, " · ");
    push_decimal(&mut m, branches.len() as u64);
    push_str(&mut m, " repo");
    if branches.len() != 1 {
        push_str(&mut m, "s");
    }
    proof {
        reveal_strlit("");
    }
    m
}

/// The completion line of a cached repo: its escaped directory name, then
/// its path with the home directory's text replaced by `~`.
pub open spec fn repo_line_spec(path: Seq<char>, home: Seq<char>) -> Seq<char> {
    zsh_escaped(name_or_empty(path)) + ":"@ + replaced(path, home, "~"@)
}

/// The repos a completion offers: those whose directory name is not among
/// `existing`, in cache order, one line each.
pub open spec fn repo_lines_spec(repos: Seq<Seq<char>>, existing: Seq<Seq<char>>, home: Seq<char>) -> Seq<
    Seq<char>,
>
    decreases repos.len(),
{
    if repos.len() == 0 {
        seq![]
    } else {
        repo_lines_spec(repos.drop_last(), existing, home) + (if existing.contains(
            name_or_empty(repos.last()),
        ) {
            seq![]
        } else {
            seq![repo_line_spec(repos.last(), home)]
        })
    }
}

fn listed_in(existing: &[String], n: &str) -> (r: bool)
    ensures
        r == strings_view(existing@).contains(n@),
{
    let mut i: usize = 0;
    while i < existing.len()
        invariant
            0 <= i <= existing.len(),
            forall|j: int| 0 <= j < i ==> existing@[j]@ != n@,
        decreases existing.len() - i,
    {
        if same_text(existing[i].as_str(), n) {
            assert(strings_view(existing@)[i as int] == n@);
            return true;
        }
        i = i + 1;
    }
    proof {
        if strings_view(existing@).contains(n@) {
            let j = choose|j: int| 0 <= j < existing@.len() && strings_view(existing@)[j] == n@;
            assert(existing@[j]@ == n@);
        }
    }
    false
}

/// The completion lines for the cached repos whose names are not in
/// `existing` (`space complete repos` passes none; `available-repos` the
/// directories already in the workspace). `home` is the home directory's
/// text, empty when there is none.
pub fn repo_lines(repos: &[String], existing: &[String], home: &str) -> (r: Vec<String>)
    ensures
        strings_view(r@) == repo_lines_spec(strings_view(repos@), strings_view(existing@), home@),
{
    let mut out: Vec<String> = Vec::new();
    let mut i: usize = 0;
    while i < repos.len()
        invariant
            0 <= i <= repos.len(),
            strings_view(out@) == repo_lines_spec(
                strings_view(repos@).subrange(0, i as int),
                strings_view(existing@),
                home@,
            ),
        decreases repos.len() - i,
    {
        let ghost rv = strings_view(repos@);
        proof {
            assert(rv.subrange(0, i + 1).drop_last() =~= rv.subrange(0, i as int));
        }
        let p = repos[i].as_str();
        let name = repo_name(p);
        if !listed_in(existing, name.as_str()) {
            let mut line = zsh_escape(name.as_str());
            push_str(&mut line, ":");
            let shown = replace_all(p, home, "~");
            push_str(&mut line, shown.as_str());
            let ghost old_out = strings_view(out@);
            out.push(line);
            assert(strings_view(out@) =~= old_out.push(repo_line_spec(rv[i as int], home@)));
        } else {
            assert(repo_lines_spec(rv.subrange(0, i + 1), strings_view(existing@), home@)
                =~= repo_lines_spec(rv.subrange(0, i as int), strings_view(existing@), home@));
        }
        i = i + 1;
    }
    assert(strings_view(repos@).subrange(0, i as int) =~= strings_view(repos@));
    out
}

/// Reading an escaped value back: a `\` takes the char after it literally.
pub open spec fn zsh_unescaped(s: Seq<char>) -> Seq<char>
    decreases s.len(),
{
    if s.len() == 0 {
        seq![]
    } else if s[0] == '\\' && s.len() >= 2 {
        seq![s[1]] + zsh_unescaped(s.skip(2))
    } else {
        seq![s[0]] + zsh_unescaped(s.skip(1))
    }
}

proof fn lemma_escape_append(a: Seq<char>, b: Seq<char>)
    ensures
        zsh_escaped(a + b) == zsh_escaped(a) + zsh_escaped(b),
    decreases b.len(),
{
    if b.len() == 0 {
        assert(a + b =~= a);
        assert(zsh_escaped(a) + zsh_escaped(b) =~= zsh_escaped(a));
    } else {
        lemma_escape_append(a, b.drop_last());
        assert((a + b).drop_last() =~= a + b.drop_last());
        assert((a + b).last() == b.last());
    }
}

/// Escaping loses nothing: reading the escaped text back gives the value,
/// so no value's colon is read as `_describe`'s delimiter.
pub proof fn lemma_zsh_escape_round_trips(s: Seq<char>)
    ensures
        zsh_unescaped(zsh_escaped(s)) == s,
    decreases s.len(),
{
    if s.len() > 0 {
        let head = seq![s[0]];
        let rest = s.skip(1);
        assert(s =~= head + rest);
        lemma_escape_append(head, rest);
        assert(head.drop_last() =~= Seq::<char>::empty());
        assert(zsh_escaped(head) == zsh_escaped(Seq::<char>::empty()) + (if s[0] == '\\' {
            seq!['\\', '\\']
        } else if s[0] == ':' {
            seq!['\\', ':']
        } else {
            seq![s[0]]
        }));
        lemma_zsh_escape_round_trips(rest);
        let e = zsh_escaped(s);
        if s[0] == '\\' || s[0] == ':' {
            assert(e.skip(2) =~= zsh_escaped(rest));
        } else {
            assert(e.skip(1) =~= zsh_escaped(rest));
        }
    }
}

} // verus!
