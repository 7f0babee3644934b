//! Paths held as text: `Path::join` and `Path::file_name` as std defines
//! them on Unix, and std's comparison of two paths by their components.
use crate::text::{
    chars_of, join_strings, join_with, lines_view, pieces_at, push_str, same_text, slice_range,
    split_at_char, string_of, strings_view,
};
use vstd::prelude::*;

verus! {

/// `Path::join` on Unix: an absolute `b` replaces `a`; otherwise `b` is
/// appended, after a `/` unless `a` is empty or already ends in one.
pub open spec fn join(a: Seq<char>, b: Seq<char>) -> Seq<char> {
    if b.len() > 0 && b[0] == '/' {
        b
    } else if a.len() == 0 || a.last() == '/' {
        a + b
    } else {
        a + seq!['/'] + b
    }
}

/// The start of the last `/`-separated piece of `s`.
pub open spec fn piece_start(s: Seq<char>, i: int) -> int
    decreases i,
{
    if i <= 0 {
        0
    } else if s[i - 1] == '/' {
        i
    } else {
        piece_start(s, i - 1)
    }
}

pub proof fn lemma_piece_start(s: Seq<char>, i: int)
    requires
        0 <= i <= s.len(),
    ensures
        0 <= piece_start(s, i) <= i,
        forall|k: int| piece_start(s, i) <= k < i ==> s[k] != '/',
        piece_start(s, i) > 0 ==> s[piece_start(s, i) - 1] == '/',
    decreases i,
{
    if i > 0 && s[i - 1] != '/' {
        lemma_piece_start(s, i - 1);
    }
}

/// `Path::file_name` on Unix: the last component when it is a plain name.
/// Trailing `/` and `.` components are skipped; a path that ends in `..`,
/// or has no plain component at all (`""`, `/`, `.`), has none.
pub open spec fn file_name(s: Seq<char>) -> Option<Seq<char>>
    decreases s.len(),
{
    if s.len() == 0 {
        None
    } else if s.last() == '/' {
        file_name(s.drop_last())
    } else {
        let k = piece_start(s, s.len() as int);
        proof {
            lemma_piece_start(s, s.len() as int);
        }
        let seg = s.subrange(k, s.len() as int);
        if seg == seq!['.'] {
            if k == 0 {
                None
            } else {
                file_name(s.subrange(0, k))
            }
        } else if seg == seq!['.', '.'] {
            None
        } else {
            Some(seg)
        }
    }
}

/// `file_name`, or the empty text when there is none
/// (`file_name().unwrap_or_default()`).
pub open spec fn name_or_empty(s: Seq<char>) -> Seq<char> {
    match file_name(s) {
        Some(n) => n,
        None => seq![],
    }
}

/// `a.join(b)`.
pub fn path_join(a: &str, b: &str) -> (r: String)
    ensures
        r@ == join(a@, b@),
{
    let bv = crate::text::chars_of(b);
    if bv.len() > 0 && bv[0] == '/' {
        return string_of(&bv);
    }
    let av = crate::text::chars_of(a);
    let mut out = string_of(&av);
    if !(av.len() == 0 || av[av.len() - 1] == '/') {
        push_str(&mut out, "/");
        proof {
            reveal_strlit("/");
        }
    }
    push_str(&mut out, b);
    proof {
        if !(av@.len() == 0 || av@.last() == '/') {
            assert(out@ =~= av@ + seq!['/'] + b@);
        }
    }
    out
}

fn file_name_of(v: &[char], len: usize) -> (r: Option<Vec<char>>)
    requires
        len <= v@.len(),
    ensures
        match file_name(v@.subrange(0, len as int)) {
            None => r is None,
            Some(n) => r matches Some(x) && x@ == n,
        },
    decreases len,
{
    let ghost s = v@.subrange(0, len as int);
    if len == 0 {
        return None;
    }
    if v[len - 1] == '/' {
        assert(s.drop_last() =~= v@.subrange(0, len - 1));
        return file_name_of(v, len - 1);
    }
    let mut k = len;
    while k > 0 && v[k - 1] != '/'
        invariant
            0 <= k <= len <= v@.len(),
            s == v@.subrange(0, len as int),
            piece_start(s, s.len() as int) == piece_start(s, k as int),
        decreases k,
    {
        assert(s[k - 1] == v@[k - 1]);
        k = k - 1;
    }
    proof {
        if k > 0 {
            assert(s[k - 1] == v@[k - 1]);
        }
        lemma_piece_start(s, s.len() as int);
    }
    let seg = slice_range(v, k, len);
    assert(seg@ =~= s.subrange(k as int, s.len() as int));
    if seg.len() == 1 && seg[0] == '.' {
        assert(seg@ =~= seq!['.']);
        if k == 0 {
            return None;
        }
        assert(s.subrange(0, k as int) =~= v@.subrange(0, k as int));
        return file_name_of(v, k);
    }
    if seg.len() == 2 && seg[0] == '.' && seg[1] == '.' {
        assert(seg@ =~= seq!['.', '.']);
        return None;
    }
    proof {
        if seg@ == seq!['.'] {
            assert(seg@.len() == 1);
        }
        if seg@ == seq!['.', '.'] {
            assert(seg@.len() == 2);
        }
    }
    Some(seg)
}

/// `path.file_name()`, as text.
pub fn path_file_name(p: &str) -> (r: Option<String>)
    ensures
        match file_name(p@) {
            None => r is None,
            Some(n) => r matches Some(x) && x@ == n,
        },
{
    let v = crate::text::chars_of(p);
    assert(v@.subrange(0, v@.len() as int) =~= v@);
    match file_name_of(&v, v.len()) {
        None => None,
        Some(n) => Some(string_of(&n)),
    }
}

/// `path.file_name()` lossily as text, or empty when there is none.
pub fn name_of(p: &str) -> (r: String)
    ensures
        r@ == name_or_empty(p@),
{
    match path_file_name(p) {
        Some(n) => n,
        None => String::new(),
    }
}

/// The plain names among the `/`-separated pieces of a path: std's
/// `Normal` components, which leave out empty pieces and `.`.
pub open spec fn names_of(ps: Seq<Seq<char>>) -> Seq<Seq<char>>
    decreases ps.len(),
{
    if ps.len() == 0 {
        seq![]
    } else {
        names_of(ps.drop_last()) + (if ps.last().len() > 0 && ps.last() != seq!['.'] {
            seq![ps.last()]
        } else {
            seq![]
        })
    }
}

/// Whether every component of `s` is the root or a plain name with no line
/// break in it: no `..`, no leading `.`, no `\n` or `\r`.
pub open spec fn plain_components(s: Seq<char>) -> bool {
    &&& forall|i: int| 0 <= i < s.len() ==> s[i] != '\n' && s[i] != '\r'
    &&& !pieces_at(s, '/').contains(seq!['.', '.'])
    &&& pieces_at(s, '/')[0] != seq!['.']
}

/// `<common>` when `s` has the shape git writes for a linked worktree's
/// admin directory, `<common>/worktrees/<id>`, in plain components; none
/// otherwise.
pub open spec fn gits_common_dir(s: Seq<char>) -> Option<Seq<char>> {
    let n = names_of(pieces_at(s, '/'));
    if plain_components(s) && n.len() >= 2 && n[n.len() - 2] == "worktrees"@ {
        Some(
            (if s.len() > 0 && s[0] == '/' {
                seq!['/']
            } else {
                seq![]
            }) + join_with(n.take(n.len() - 2), seq!['/']),
        )
    } else {
        None
    }
}

/// The repository a worktree admin path belongs to, when the path is in the
/// shape git writes (`<common>/worktrees/<id>`, nothing but the root and
/// plain names): an allow-list, since what a hand edit can put in a
/// `.git` file is not a list anyone can finish.
pub fn common_dir_in_gits_shape(admin: &str) -> (r: Option<String>)
    ensures
        match gits_common_dir(admin@) {
            Some(c) => r matches Some(x) && x@ == c,
            None => r is None,
        },
{
    let v = chars_of(admin);
    let mut i: usize = 0;
    while i < v.len()
        invariant
            0 <= i <= v.len(),
            v@ == admin@,
            forall|j: int| 0 <= j < i ==> v@[j] != '\n' && v@[j] != '\r',
        decreases v.len() - i,
    {
        if v[i] == '\n' || v[i] == '\r' {
            return None;
        }
        i = i + 1;
    }
    let ps = split_at_char(v.as_slice(), '/');
    let ghost pv = lines_view(ps@);
    assert(pv == pieces_at(admin@, '/'));
    assert(pv[0] == ps@[0]@);
    if ps[0].len() == 1 && ps[0][0] == '.' {
        assert(pv[0] =~= seq!['.']);
        return None;
    }
    let mut names: Vec<String> = Vec::new();
    let mut k: usize = 0;
    while k < ps.len()
        invariant
            0 <= k <= ps.len(),
            pv == lines_view(ps@),
            pv == pieces_at(admin@, '/'),
            strings_view(names@) == names_of(pv.take(k as int)),
            forall|j: int| 0 <= j < k ==> pv[j] != seq!['.', '.'],
        decreases ps.len() - k,
    {
        let p = &ps[k];
        proof {
            assert(pv[k as int] == p@);
            assert(pv.take(k + 1).drop_last() =~= pv.take(k as int));
            assert(pv.take(k + 1).last() == p@);
        }
        if p.len() == 2 && p[0] == '.' && p[1] == '.' {
            assert(p@ =~= seq!['.', '.']);
            assert(pv[k as int] == seq!['.', '.']);
            assert(pv.contains(seq!['.', '.']));
            return None;
        }
        let dot = p.len() == 1 && p[0] == '.';
        proof {
            if p@ == seq!['.'] {
                assert(p@.len() == 1 && p@[0] == '.');
            }
            if dot {
                assert(p@ =~= seq!['.']);
            }
            if p@ == seq!['.', '.'] {
                assert(p@.len() == 2 && p@[0] == '.' && p@[1] == '.');
            }
        }
        if p.len() > 0 && !dot {
            let ghost old_n = strings_view(names@);
            names.push(string_of(p.as_slice()));
            assert(strings_view(names@) =~= old_n.push(p@));
        } else {
            assert(names_of(pv.take(k + 1)) =~= names_of(pv.take(k as int)));
        }
        k = k + 1;
    }
    assert(pv.take(k as int) =~= pv);
    assert(!pv.contains(seq!['.', '.']));
    let n = names.len();
    proof {
        reveal_strlit("worktrees");
    }
    if n < 2 {
        return None;
    }
    assert(strings_view(names@)[n - 2] == names@[n - 2]@);
    if !same_text(names[n - 2].as_str(), "worktrees") {
        return None;
    }
    let ghost nv = strings_view(names@);
    names.truncate(n - 2);
    assert(strings_view(names@) =~= nv.take(n - 2));
    let mut out = if v.len() > 0 && v[0] == '/' {
        String::from_str("/")
    } else {
        String::new()
    };
    proof {
        reveal_strlit("/");
        reveal_strlit("");
    }
    let joined = join_strings(names.as_slice(), "/");
    assert("/"@ =~= seq!['/']);
    assert(nv =~= names_of(pieces_at(admin@, '/')));
    push_str(&mut out, joined.as_str());
    Some(out)
}

/// Whether std orders path `a` before path `b`: component by component
/// (root, then `.`/`..`, then names compared byte-wise), not as text.
pub uninterp spec fn path_less(a: Seq<char>, b: Seq<char>) -> bool;

/// Whether std counts paths `a` and `b` equal: the same components, so
/// `a//b` and `a/./b` equal `a/b`.
pub uninterp spec fn path_same(a: Seq<char>, b: Seq<char>) -> bool;

/// `Path::new(a) < Path::new(b)` (`PartialOrd for Path`). Named: std
/// compares component iterators, whose parsing rules this does not restate.
#[verifier::external_body]
pub(crate) fn path_lt(a: &str, b: &str) -> (r: bool)
    ensures
        r == path_less(a@, b@),
{
    std::path::Path::new(a) < std::path::Path::new(b)
}

/// `Path::new(a) == Path::new(b)` (`PartialEq for Path`), by components.
/// Beside the name, the contract claims only that two paths of the same
/// text are equal (the same text parses to the same components).
#[verifier::external_body]
pub(crate) fn path_eq(a: &str, b: &str) -> (r: bool)
    ensures
        r == path_same(a@, b@),
        a@ == b@ ==> r,
{
    std::path::Path::new(a) == std::path::Path::new(b)
}

} // verus!
