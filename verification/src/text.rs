//! Character-level text helpers: what `str` offers (`trim`, `lines`,
//! `starts_with`, `contains`, `split_once`) stated over `Seq<char>` and
//! implemented over `&[char]`, plus building a `String` and decimal numbers.
use vstd::prelude::*;

verus! {

/// `char::is_whitespace`: the Unicode `White_Space` property.
pub open spec fn is_white(c: char) -> bool {
    ||| ('\u{9}' <= c && c <= '\u{d}')
    ||| c == ' '
    ||| c == '\u{85}'
    ||| c == '\u{a0}'
    ||| c == '\u{1680}'
    ||| ('\u{2000}' <= c && c <= '\u{200a}')
    ||| c == '\u{2028}'
    ||| c == '\u{2029}'
    ||| c == '\u{202f}'
    ||| c == '\u{205f}'
    ||| c == '\u{3000}'
}

pub fn is_whitespace(c: char) -> (r: bool)
    ensures
        r == is_white(c),
{
    ('\u{9}' <= c && c <= '\u{d}') || c == ' ' || c == '\u{85}' || c == '\u{a0}' || c == '\u{1680}'
        || ('\u{2000}' <= c && c <= '\u{200a}') || c == '\u{2028}' || c == '\u{2029}' || c
        == '\u{202f}' || c == '\u{205f}' || c == '\u{3000}'
}

/// `s` with leading whitespace removed (`str::trim_start`).
pub open spec fn trim_start(s: Seq<char>) -> Seq<char>
    decreases s.len(),
{
    if s.len() > 0 && is_white(s[0]) {
        trim_start(s.drop_first())
    } else {
        s
    }
}

/// `s` with trailing whitespace removed (`str::trim_end`).
pub open spec fn trim_end(s: Seq<char>) -> Seq<char>
    decreases s.len(),
{
    if s.len() > 0 && is_white(s.last()) {
        trim_end(s.drop_last())
    } else {
        s
    }
}

/// `str::trim`.
pub open spec fn trim(s: Seq<char>) -> Seq<char> {
    trim_end(trim_start(s))
}

/// `p` is a prefix of `s`.
pub open spec fn starts(s: Seq<char>, p: Seq<char>) -> bool {
    p.len() <= s.len() && s.subrange(0, p.len() as int) == p
}

/// `p` is a suffix of `s`.
pub open spec fn ends(s: Seq<char>, p: Seq<char>) -> bool {
    p.len() <= s.len() && s.subrange(s.len() - p.len(), s.len() as int) == p
}

/// `p` occurs in `s` starting at index `i`.
pub open spec fn occurs_at(s: Seq<char>, p: Seq<char>, i: int) -> bool {
    0 <= i && i + p.len() <= s.len() && s.subrange(i, i + p.len()) == p
}

/// `str::contains` with a string pattern.
pub open spec fn has_sub(s: Seq<char>, p: Seq<char>) -> bool {
    exists|i: int| occurs_at(s, p, i)
}

/// The index of the first occurrence of `p` in `s`, if any (`str::find`).
pub open spec fn first_at(s: Seq<char>, p: Seq<char>, i: int) -> bool {
    occurs_at(s, p, i) && forall|j: int| 0 <= j < i ==> !occurs_at(s, p, j)
}

/// One line as `str::lines` yields it: a `\r` before the `\n` is dropped.
pub open spec fn strip_cr(s: Seq<char>) -> Seq<char> {
    if s.len() > 0 && s.last() == '\r' {
        s.drop_last()
    } else {
        s
    }
}

/// The index of the first `\n` in `s` at or after `from`, or `s.len()`.
pub open spec fn next_newline(s: Seq<char>, from: int) -> int
    decreases s.len() - from,
{
    if from >= s.len() {
        s.len() as int
    } else if s[from] == '\n' {
        from
    } else {
        next_newline(s, from + 1)
    }
}

pub proof fn lemma_next_newline_bounds(s: Seq<char>, from: int)
    requires
        0 <= from,
    ensures
        from <= next_newline(s, from) <= s.len() || (from > s.len() && next_newline(s, from)
            == s.len()),
    decreases s.len() - from,
{
    if from < s.len() && s[from] != '\n' {
        lemma_next_newline_bounds(s, from + 1);
    }
}

/// `str::lines`: the pieces between `\n`s, each with a `\r` before its `\n`
/// dropped; a final `\n` ends the last line rather than starting an empty one.
pub open spec fn lines(s: Seq<char>) -> Seq<Seq<char>>
    decreases s.len(),
{
    if s.len() == 0 {
        seq![]
    } else {
        let n = next_newline(s, 0);
        proof {
            lemma_next_newline_bounds(s, 0);
        }
        if n >= s.len() {
            seq![s]
        } else {
            seq![strip_cr(s.subrange(0, n))] + lines(s.subrange(n + 1, s.len() as int))
        }
    }
}

/// The decimal digit for `d < 10`.
pub open spec fn digit(d: nat) -> char {
    if d == 0 {
        '0'
    } else if d == 1 {
        '1'
    } else if d == 2 {
        '2'
    } else if d == 3 {
        '3'
    } else if d == 4 {
        '4'
    } else if d == 5 {
        '5'
    } else if d == 6 {
        '6'
    } else if d == 7 {
        '7'
    } else if d == 8 {
        '8'
    } else {
        '9'
    }
}

/// The decimal form of `n`, as `{}` prints an unsigned integer.
pub open spec fn dec(n: nat) -> Seq<char>
    decreases n,
{
    if n < 10 {
        seq![digit(n)]
    } else {
        dec(n / 10).push(digit(n % 10))
    }
}

/// `String::push`: its documentation says it appends the char to the end
/// of the string, and that is all the contract claims (the text afterwards
/// is the text before with `c` after it).
#[verifier::external_body]
pub(crate) fn push_char(s: &mut String, c: char)
    ensures
        final(s)@ == old(s)@.push(c),
{
    s.push(c);
}

/// Append every char of `v` to `s`.
pub fn push_chars(s: &mut String, v: &[char])
    ensures
        final(s)@ == old(s)@ + v@,
{
    let mut i: usize = 0;
    while i < v.len()
        invariant
            0 <= i <= v.len(),
            s@ == old(s)@ + v@.subrange(0, i as int),
        decreases v.len() - i,
    {
        push_char(s, v[i]);
        i = i + 1;
        assert(v@.subrange(0, i as int) == v@.subrange(0, i - 1).push(v@[i - 1]));
    }
    assert(v@.subrange(0, v.len() as int) == v@);
}

/// Append `t` to `s`.
pub fn push_str(s: &mut String, t: &str)
    ensures
        final(s)@ == old(s)@ + t@,
{
    s.append(t);
}

/// A `String` holding exactly the chars of `v`.
pub fn string_of(v: &[char]) -> (r: String)
    ensures
        r@ == v@,
{
    let mut s = String::new();
    push_chars(&mut s, v);
    s
}

/// The chars of `s`, in order.
pub fn chars_of(s: &str) -> (r: Vec<char>)
    ensures
        r@ == s@,
{
    let n = s.unicode_len();
    let mut r: Vec<char> = Vec::new();
    let mut i: usize = 0;
    while i < n
        invariant
            n == s@.len(),
            0 <= i <= n,
            r@ == s@.subrange(0, i as int),
        decreases n - i,
    {
        r.push(s.get_char(i));
        i = i + 1;
        assert(r@ == s@.subrange(0, i as int));
    }
    assert(s@.subrange(0, n as int) == s@);
    r
}

/// Append the decimal form of `n`.
pub fn push_decimal(out: &mut String, n: u64)
    ensures
        final(out)@ == old(out)@ + dec(n as nat),
    decreases n,
{
    if n >= 10 {
        push_decimal(out, n / 10);
    }
    let d = n % 10;
    let c = if d == 0 {
        '0'
    } else if d == 1 {
        '1'
    } else if d == 2 {
        '2'
    } else if d == 3 {
        '3'
    } else if d == 4 {
        '4'
    } else if d == 5 {
        '5'
    } else if d == 6 {
        '6'
    } else if d == 7 {
        '7'
    } else if d == 8 {
        '8'
    } else {
        '9'
    };
    push_char(out, c);
}

proof fn lemma_trim_start_skip(s: Seq<char>, i: int)
    requires
        0 <= i <= s.len(),
        forall|j: int| 0 <= j < i ==> is_white(#[trigger] s[j]),
    ensures
        trim_start(s) == trim_start(s.subrange(i, s.len() as int)),
    decreases i,
{
    if i > 0 {
        assert(s.drop_first().subrange(i - 1, s.len() - 1) =~= s.subrange(i, s.len() as int));
        lemma_trim_start_skip(s.drop_first(), i - 1);
    } else {
        assert(s.subrange(0, s.len() as int) =~= s);
    }
}

proof fn lemma_trim_end_cut(s: Seq<char>, j: int)
    requires
        0 <= j <= s.len(),
        forall|k: int| j <= k < s.len() ==> is_white(#[trigger] s[k]),
    ensures
        trim_end(s) == trim_end(s.subrange(0, j)),
    decreases s.len() - j,
{
    if j < s.len() {
        assert(s.drop_last().subrange(0, j) =~= s.subrange(0, j));
        lemma_trim_end_cut(s.drop_last(), j);
    } else {
        assert(s.subrange(0, j) =~= s);
    }
}

/// The bounds `(a, b)` with `v[a..b]` the trimmed text.
pub fn trim_bounds(v: &[char]) -> (r: (usize, usize))
    ensures
        r.0 <= r.1 <= v@.len(),
        v@.subrange(r.0 as int, r.1 as int) == trim(v@),
{
    let mut a: usize = 0;
    while a < v.len() && is_whitespace(v[a])
        invariant
            0 <= a <= v.len(),
            forall|j: int| 0 <= j < a ==> is_white(#[trigger] v@[j]),
        decreases v.len() - a,
    {
        a = a + 1;
    }
    proof {
        lemma_trim_start_skip(v@, a as int);
    }
    let ghost t = v@.subrange(a as int, v@.len() as int);
    assert(trim_start(t) == t);
    let mut b: usize = v.len();
    while b > a && is_whitespace(v[b - 1])
        invariant
            a <= b <= v.len(),
            t == v@.subrange(a as int, v@.len() as int),
            forall|k: int| b <= k < v@.len() ==> is_white(#[trigger] v@[k]),
        decreases b - a,
    {
        b = b - 1;
    }
    proof {
        assert forall|k: int| (b - a) <= k < t.len() implies is_white(#[trigger] t[k]) by {
            assert(t[k] == v@[k + a]);
        }
        lemma_trim_end_cut(t, (b - a) as int);
        assert(t.subrange(0, (b - a) as int) =~= v@.subrange(a as int, b as int));
    }
    (a, b)
}

/// `str::trim` on chars.
pub fn trimmed(v: &[char]) -> (r: Vec<char>)
    ensures
        r@ == trim(v@),
{
    let (a, b) = trim_bounds(v);
    slice_range(v, a, b)
}

/// `v[a..b]` as a new vector.
pub fn slice_range(v: &[char], a: usize, b: usize) -> (r: Vec<char>)
    requires
        a <= b <= v@.len(),
    ensures
        r@ == v@.subrange(a as int, b as int),
{
    let mut r: Vec<char> = Vec::new();
    let mut i = a;
    while i < b
        invariant
            a <= i <= b <= v@.len(),
            r@ == v@.subrange(a as int, i as int),
        decreases b - i,
    {
        r.push(v[i]);
        i = i + 1;
        assert(r@ == v@.subrange(a as int, i as int));
    }
    r
}

/// Whether `p` occurs in `v` at `i`.
pub fn matches_at(v: &[char], p: &[char], i: usize) -> (r: bool)
    ensures
        r == occurs_at(v@, p@, i as int),
{
    if i > v.len() || p.len() > v.len() - i {
        return false;
    }
    let mut k: usize = 0;
    while k < p.len()
        invariant
            0 <= k <= p.len(),
            i + p.len() <= v.len(),
            forall|m: int| 0 <= m < k ==> v@[i + m] == p@[m],
        decreases p.len() - k,
    {
        if v[i + k] != p[k] {
            assert(v@.subrange(i as int, i + p.len())[k as int] != p@[k as int]);
            return false;
        }
        k = k + 1;
    }
    assert(v@.subrange(i as int, i + p.len()) =~= p@);
    true
}

/// `str::starts_with`.
pub fn starts_with(v: &[char], p: &[char]) -> (r: bool)
    ensures
        r == starts(v@, p@),
{
    let r = matches_at(v, p, 0);
    r
}

/// `str::ends_with`.
pub fn ends_with(v: &[char], p: &[char]) -> (r: bool)
    ensures
        r == ends(v@, p@),
{
    if p.len() > v.len() {
        return false;
    }
    matches_at(v, p, v.len() - p.len())
}

/// `str::find`: the first index where `p` occurs in `v`.
pub fn find(v: &[char], p: &[char]) -> (r: Option<usize>)
    ensures
        r matches Some(i) ==> first_at(v@, p@, i as int),
        r is None ==> !has_sub(v@, p@),
{
    if p.len() > v.len() {
        return None;
    }
    let limit = v.len() - p.len();
    let mut i: usize = 0;
    loop
        invariant
            p.len() <= v.len(),
            limit == v.len() - p.len(),
            i <= limit,
            forall|j: int| 0 <= j < i ==> !occurs_at(v@, p@, j),
        ensures
            forall|j: int| 0 <= j <= limit ==> !occurs_at(v@, p@, j),
        decreases limit - i,
    {
        if matches_at(v, p, i) {
            return Some(i);
        }
        if i == limit {
            break;
        }
        i = i + 1;
    }
    None
}

/// `str::contains`.
pub fn contains(v: &[char], p: &[char]) -> (r: bool)
    ensures
        r == has_sub(v@, p@),
{
    match find(v, p) {
        Some(_) => true,
        None => false,
    }
}

proof fn lemma_next_newline(s: Seq<char>, from: int, n: int)
    requires
        0 <= from <= n <= s.len(),
        forall|k: int| from <= k < n ==> s[k] != '\n',
        n == s.len() || s[n] == '\n',
    ensures
        next_newline(s, from) == n,
    decreases n - from,
{
    if from < n {
        lemma_next_newline(s, from + 1, n);
    }
}

/// `str::lines` on chars.
pub fn lines_of(v: &[char]) -> (r: Vec<Vec<char>>)
    ensures
        r@.map_values(|l: Vec<char>| l@) == lines(v@),
{
    let mut r: Vec<Vec<char>> = Vec::new();
    let mut start: usize = 0;
    assert(v@.subrange(0, v@.len() as int) =~= v@);
    assert(r@.map_values(|l: Vec<char>| l@) =~= Seq::<Seq<char>>::empty());
    while start < v.len()
        invariant
            0 <= start <= v.len(),
            r@.map_values(|l: Vec<char>| l@) + lines(v@.subrange(start as int, v@.len() as int))
                == lines(v@),
        decreases v.len() - start,
    {
        let ghost rest = v@.subrange(start as int, v@.len() as int);
        let mut n = start;
        while n < v.len() && v[n] != '\n'
            invariant
                start <= n <= v.len(),
                forall|k: int| start <= k < n ==> v@[k] != '\n',
            decreases v.len() - n,
        {
            n = n + 1;
        }
        proof {
            lemma_next_newline(rest, 0, (n - start) as int);
        }
        let ghost old_r = r@.map_values(|l: Vec<char>| l@);
        if n >= v.len() {
            let line = slice_range(v, start, n);
            r.push(line);
            assert(lines(rest) == seq![rest]);
            assert(r@.map_values(|l: Vec<char>| l@) =~= old_r.push(rest));
            start = n;
            assert(lines(v@.subrange(start as int, v@.len() as int)) =~= seq![]);
            assert(old_r + seq![rest] =~= old_r.push(rest));
        } else {
            let mut end = n;
            if end > start && v[end - 1] == '\r' {
                end = end - 1;
            }
            let line = slice_range(v, start, end);
            proof {
                let piece = rest.subrange(0, (n - start) as int);
                assert(piece =~= v@.subrange(start as int, n as int));
                if n > start && v@[n - 1] == '\r' {
                    assert(strip_cr(piece) =~= v@.subrange(start as int, end as int));
                } else {
                    assert(strip_cr(piece) =~= v@.subrange(start as int, end as int));
                }
                assert(rest.subrange((n - start) + 1, rest.len() as int) =~= v@.subrange(
                    n + 1,
                    v@.len() as int,
                ));
            }
            r.push(line);
            assert(r@.map_values(|l: Vec<char>| l@) =~= old_r.push(
                v@.subrange(start as int, end as int),
            ));
            start = n + 1;
            assert(old_r + lines(rest) =~= r@.map_values(|l: Vec<char>| l@) + lines(
                v@.subrange(start as int, v@.len() as int),
            ));
        }
    }
    assert(v@.subrange(start as int, v@.len() as int) =~= Seq::<char>::empty());
    assert(r@.map_values(|l: Vec<char>| l@) =~= r@.map_values(|l: Vec<char>| l@) + lines(
        Seq::<char>::empty(),
    ));
    r
}


/// The first line of `ls` that satisfies `p`.
pub open spec fn first_where(ls: Seq<Seq<char>>, p: spec_fn(Seq<char>) -> bool) -> Option<
    Seq<char>,
>
    decreases ls.len(),
{
    if ls.len() == 0 {
        None
    } else if p(ls[0]) {
        Some(ls[0])
    } else {
        first_where(ls.drop_first(), p)
    }
}

pub proof fn lemma_first_where_step(ls: Seq<Seq<char>>, p: spec_fn(Seq<char>) -> bool, i: int)
    requires
        0 <= i < ls.len(),
    ensures
        first_where(ls.skip(i), p) == (if p(ls[i]) {
            Some(ls[i])
        } else {
            first_where(ls.skip(i + 1), p)
        }),
{
    assert(ls.skip(i).drop_first() =~= ls.skip(i + 1));
    assert(ls.skip(i)[0] == ls[i]);
}

pub proof fn lemma_first_where_end(ls: Seq<Seq<char>>, p: spec_fn(Seq<char>) -> bool)
    ensures
        first_where(ls.skip(ls.len() as int), p) == None::<Seq<char>>,
        ls.skip(0) == ls,
{
    assert(ls.skip(ls.len() as int) =~= Seq::<Seq<char>>::empty());
    assert(ls.skip(0) =~= ls);
}

/// Every line trimmed.
pub open spec fn trimmed_all(ls: Seq<Seq<char>>) -> Seq<Seq<char>> {
    ls.map_values(|l: Seq<char>| trim(l))
}

/// The text of a list of lines.
pub open spec fn lines_view(v: Seq<Vec<char>>) -> Seq<Seq<char>> {
    v.map_values(|l: Vec<char>| l@)
}

/// `s.lines().map(str::trim)` on chars.
pub fn trimmed_lines(v: &[char]) -> (r: Vec<Vec<char>>)
    ensures
        lines_view(r@) == trimmed_all(lines(v@)),
{
    let ls = lines_of(v);
    let mut r: Vec<Vec<char>> = Vec::new();
    let mut i: usize = 0;
    while i < ls.len()
        invariant
            0 <= i <= ls.len(),
            ls@.map_values(|l: Vec<char>| l@) == lines(v@),
            lines_view(r@) == trimmed_all(lines(v@)).subrange(0, i as int),
        decreases ls.len() - i,
    {
        let t = trimmed(ls[i].as_slice());
        assert(ls@.map_values(|l: Vec<char>| l@)[i as int] == ls@[i as int]@);
        assert(t@ == trimmed_all(lines(v@))[i as int]);
        let ghost old_r = r@;
        r.push(t);
        assert(lines_view(r@) =~= lines_view(old_r).push(t@));
        assert(trimmed_all(lines(v@)).subrange(0, i + 1) =~= trimmed_all(lines(v@)).subrange(0, i as int).push(t@));
        i = i + 1;
        assert(lines_view(r@) =~= trimmed_all(lines(v@)).subrange(0, i as int));
    }
    assert(trimmed_all(lines(v@)).subrange(0, i as int) =~= trimmed_all(lines(v@)));
    r
}

/// `s` with every leading copy of `p` removed (`str::trim_start_matches`).
pub open spec fn strip_all(s: Seq<char>, p: Seq<char>) -> Seq<char>
    decreases s.len(),
{
    if p.len() > 0 && starts(s, p) {
        strip_all(s.subrange(p.len() as int, s.len() as int), p)
    } else {
        s
    }
}

/// `str::trim_start_matches` with a string pattern.
pub fn strip_all_prefix(v: &[char], p: &[char]) -> (r: Vec<char>)
    ensures
        r@ == strip_all(v@, p@),
{
    let mut a: usize = 0;
    assert(v@.subrange(0, v@.len() as int) =~= v@);
    while p.len() > 0 && a <= v.len() && matches_at(v, p, a)
        invariant
            0 <= a <= v.len(),
            strip_all(v@, p@) == strip_all(v@.subrange(a as int, v@.len() as int), p@),
        decreases v.len() - a,
    {
        proof {
            let rest = v@.subrange(a as int, v@.len() as int);
            assert(rest.subrange(0, p@.len() as int) =~= v@.subrange(a as int, a + p@.len()));
            assert(rest.subrange(p@.len() as int, rest.len() as int) =~= v@.subrange(
                a + p@.len(),
                v@.len() as int,
            ));
        }
        a = a + p.len();
    }
    proof {
        let rest = v@.subrange(a as int, v@.len() as int);
        if p@.len() > 0 && starts(rest, p@) {
            assert(rest.subrange(0, p@.len() as int) =~= v@.subrange(a as int, a + p@.len()));
        }
    }
    slice_range(v, a, v.len())
}


/// The first index at or after `i` where `p` occurs in `s`.
pub open spec fn find_from(s: Seq<char>, p: Seq<char>, i: int) -> Option<int>
    decreases s.len() + 1 - i,
{
    if i < 0 || i + p.len() > s.len() {
        None
    } else if occurs_at(s, p, i) {
        Some(i)
    } else {
        find_from(s, p, i + 1)
    }
}

pub proof fn lemma_find_from_found(s: Seq<char>, p: Seq<char>, j: int, i: int)
    requires
        0 <= j <= i,
        occurs_at(s, p, i),
        forall|k: int| j <= k < i ==> !occurs_at(s, p, k),
    ensures
        find_from(s, p, j) == Some(i),
    decreases i - j,
{
    if j < i {
        lemma_find_from_found(s, p, j + 1, i);
    }
}

pub proof fn lemma_find_from_none(s: Seq<char>, p: Seq<char>, j: int)
    requires
        0 <= j,
        forall|k: int| j <= k ==> !occurs_at(s, p, k),
    ensures
        find_from(s, p, j) is None,
    decreases s.len() + 1 - j,
{
    if j + p.len() <= s.len() {
        lemma_find_from_none(s, p, j + 1);
    }
}

/// `str::split_once` with a string pattern: the text before and after the
/// first occurrence of `p`.
pub open spec fn split_once(s: Seq<char>, p: Seq<char>) -> Option<(Seq<char>, Seq<char>)> {
    match find_from(s, p, 0) {
        Some(i) => Some((s.subrange(0, i), s.subrange(i + p.len(), s.len() as int))),
        None => None,
    }
}

/// The first occurrence of `p` in `v`, by `find_from`.
pub fn find_first(v: &[char], p: &[char]) -> (r: Option<usize>)
    ensures
        match find_from(v@, p@, 0) {
            Some(i) => r matches Some(j) && j as int == i,
            None => r is None,
        },
        r matches Some(i) ==> i + p@.len() <= v@.len(),
{
    match find(v, p) {
        Some(i) => {
            proof {
                lemma_find_from_found(v@, p@, 0, i as int);
            }
            Some(i)
        },
        None => {
            proof {
                assert forall|k: int| 0 <= k implies !occurs_at(v@, p@, k) by {
                    if occurs_at(v@, p@, k) {
                        assert(has_sub(v@, p@));
                    }
                }
                lemma_find_from_none(v@, p@, 0);
            }
            None
        },
    }
}

/// `str::split_once` on chars.
pub fn split_once_at(v: &[char], p: &[char]) -> (r: Option<(Vec<char>, Vec<char>)>)
    ensures
        match split_once(v@, p@) {
            Some((a, b)) => r matches Some((x, y)) && x@ == a && y@ == b,
            None => r is None,
        },
{
    match find_first(v, p) {
        Some(i) => {
            let pl = p.len();
            let vl = v.len();
            assert(i + pl <= vl);
            Some((slice_range(v, 0, i), slice_range(v, i + pl, vl)))
        },
        None => None,
    }
}


/// `t`, or `fallback` when `t` is empty.
pub open spec fn or_else(t: Seq<char>, fallback: Seq<char>) -> Seq<char> {
    if t.len() == 0 {
        fallback
    } else {
        t
    }
}

/// `s.trim()`, or `fallback` when that is empty.
pub fn trim_or(s: &str, fallback: &str) -> (r: String)
    ensures
        r@ == or_else(trim(s@), fallback@),
{
    let v = chars_of(s);
    let t = trimmed(&v);
    if t.len() == 0 {
        String::from_str(fallback)
    } else {
        string_of(&t)
    }
}

/// `parts.join(sep)`.
pub open spec fn join_with(parts: Seq<Seq<char>>, sep: Seq<char>) -> Seq<char>
    decreases parts.len(),
{
    if parts.len() == 0 {
        seq![]
    } else if parts.len() == 1 {
        parts[0]
    } else {
        join_with(parts.drop_last(), sep) + sep + parts.last()
    }
}

/// The text of a list of strings.
pub open spec fn strings_view(v: Seq<String>) -> Seq<Seq<char>> {
    v.map_values(|s: String| s@)
}

/// `parts.join(sep)` on strings.
pub fn join_strings(parts: &[String], sep: &str) -> (r: String)
    ensures
        r@ == join_with(strings_view(parts@), sep@),
{
    let mut out = String::new();
    let mut i: usize = 0;
    while i < parts.len()
        invariant
            0 <= i <= parts.len(),
            out@ == join_with(strings_view(parts@).subrange(0, i as int), sep@),
        decreases parts.len() - i,
    {
        let ghost pv = strings_view(parts@);
        proof {
            assert(pv.subrange(0, i + 1).drop_last() =~= pv.subrange(0, i as int));
            assert(pv.subrange(0, i + 1).last() == parts@[i as int]@);
        }
        if i > 0 {
            push_str(&mut out, sep);
        }
        push_str(&mut out, parts[i].as_str());
        proof {
            if i == 0 {
                assert(pv.subrange(0, 1) =~= seq![parts@[0]@]);
            }
        }
        i = i + 1;
    }
    assert(strings_view(parts@).subrange(0, i as int) =~= strings_view(parts@));
    out
}

/// `lines.join(sep)` for lines given as chars.
pub fn join_lines(ls: &Vec<Vec<char>>, sep: &str) -> (r: String)
    ensures
        r@ == join_with(lines_view(ls@), sep@),
{
    let mut out = String::new();
    let mut i: usize = 0;
    while i < ls.len()
        invariant
            0 <= i <= ls.len(),
            out@ == join_with(lines_view(ls@).subrange(0, i as int), sep@),
        decreases ls.len() - i,
    {
        let ghost pv = lines_view(ls@);
        proof {
            assert(pv.subrange(0, i + 1).drop_last() =~= pv.subrange(0, i as int));
            assert(pv.subrange(0, i + 1).last() == ls@[i as int]@);
        }
        if i > 0 {
            push_str(&mut out, sep);
        }
        push_chars(&mut out, ls[i].as_slice());
        proof {
            if i == 0 {
                assert(pv.subrange(0, 1) =~= seq![ls@[0]@]);
            }
        }
        i = i + 1;
    }
    assert(lines_view(ls@).subrange(0, i as int) =~= lines_view(ls@));
    out
}

/// The pieces of `s` between `sep`s (`str::split(sep)`): always at least
/// one.
pub open spec fn pieces_at(s: Seq<char>, sep: char) -> Seq<Seq<char>>
    decreases s.len(),
{
    if s.len() == 0 {
        seq![seq![]]
    } else {
        let rest = pieces_at(s.drop_last(), sep);
        if s.last() == sep {
            rest.push(seq![])
        } else {
            rest.update(rest.len() - 1, rest.last().push(s.last()))
        }
    }
}

pub proof fn lemma_pieces_at_nonempty(s: Seq<char>, sep: char)
    ensures
        pieces_at(s, sep).len() >= 1,
    decreases s.len(),
{
    if s.len() > 0 {
        lemma_pieces_at_nonempty(s.drop_last(), sep);
    }
}

/// `v` split at each `sep`.
pub fn split_at_char(v: &[char], sep: char) -> (r: Vec<Vec<char>>)
    ensures
        lines_view(r@) == pieces_at(v@, sep),
        r@.len() >= 1,
{
    let mut pieces: Vec<Vec<char>> = Vec::new();
    pieces.push(Vec::new());
    let mut i: usize = 0;
    assert(v@.subrange(0, 0) =~= Seq::<char>::empty());
    assert(lines_view(pieces@) =~= pieces_at(Seq::<char>::empty(), sep));
    while i < v.len()
        invariant
            0 <= i <= v.len(),
            pieces@.len() >= 1,
            lines_view(pieces@) == pieces_at(v@.subrange(0, i as int), sep),
        decreases v.len() - i,
    {
        proof {
            assert(v@.subrange(0, i + 1).drop_last() =~= v@.subrange(0, i as int));
            lemma_pieces_at_nonempty(v@.subrange(0, i as int), sep);
        }
        let ghost old_p = lines_view(pieces@);
        if v[i] == sep {
            pieces.push(Vec::new());
            assert(lines_view(pieces@) =~= old_p.push(seq![]));
        } else {
            let last = pieces.len() - 1;
            let mut cur = pieces.pop().unwrap();
            cur.push(v[i]);
            pieces.push(cur);
            assert(lines_view(pieces@) =~= old_p.update(last as int, old_p.last().push(v@[i as int])));
        }
        i = i + 1;
    }
    assert(v@.subrange(0, i as int) =~= v@);
    pieces
}

/// `s` with trailing `a`s and `b`s removed (`trim_end_matches([a, b])`).
pub open spec fn trim_end_of(s: Seq<char>, a: char, b: char) -> Seq<char>
    decreases s.len(),
{
    if s.len() > 0 && (s.last() == a || s.last() == b) {
        trim_end_of(s.drop_last(), a, b)
    } else {
        s
    }
}

proof fn lemma_trim_end_of_cut(s: Seq<char>, a: char, b: char, j: int)
    requires
        0 <= j <= s.len(),
        forall|k: int| j <= k < s.len() ==> (#[trigger] s[k] == a || s[k] == b),
        !(j > 0 && (s[j - 1] == a || s[j - 1] == b)),
    ensures
        trim_end_of(s, a, b) == s.subrange(0, j),
    decreases s.len() - j,
{
    if j < s.len() {
        assert(s.drop_last().subrange(0, j) =~= s.subrange(0, j));
        lemma_trim_end_of_cut(s.drop_last(), a, b, j);
    } else {
        assert(s.subrange(0, j) =~= s);
    }
}

/// `s.trim_end_matches([a, b])` on chars.
pub fn trimmed_end_of(v: &[char], a: char, b: char) -> (r: Vec<char>)
    ensures
        r@ == trim_end_of(v@, a, b),
{
    let mut e: usize = v.len();
    while e > 0 && (v[e - 1] == a || v[e - 1] == b)
        invariant
            0 <= e <= v.len(),
            forall|k: int| e <= k < v@.len() ==> (#[trigger] v@[k] == a || v@[k] == b),
        decreases e,
    {
        e = e - 1;
    }
    proof {
        lemma_trim_end_of_cut(v@, a, b, e as int);
    }
    slice_range(v, 0, e)
}

/// The text before the first `\n` (all of it when there is none).
pub open spec fn before_newline(s: Seq<char>) -> Seq<char> {
    s.subrange(0, next_newline(s, 0))
}

/// `s.split('\n').next()` on chars.
pub fn first_piece(v: &[char]) -> (r: Vec<char>)
    ensures
        r@ == before_newline(v@),
{
    let mut i: usize = 0;
    while i < v.len() && v[i] != '\n'
        invariant
            0 <= i <= v.len(),
            next_newline(v@, 0) == next_newline(v@, i as int),
        decreases v.len() - i,
    {
        i = i + 1;
    }
    slice_range(v, 0, i)
}

/// Whether two strings hold the same text.
pub fn same_text(x: &str, y: &str) -> (r: bool)
    ensures
        r == (x@ == y@),
{
    let a = chars_of(x);
    let b = chars_of(y);
    if a.len() != b.len() {
        assert(x@.len() != y@.len());
        return false;
    }
    let mut i: usize = 0;
    while i < a.len()
        invariant
            0 <= i <= a.len(),
            a.len() == b.len(),
            a@ == x@,
            b@ == y@,
            forall|j: int| 0 <= j < i ==> a@[j] == b@[j],
        decreases a.len() - i,
    {
        if a[i] != b[i] {
            assert(x@[i as int] != y@[i as int]);
            return false;
        }
        i = i + 1;
    }
    assert(a@ =~= b@);
    true
}

} // verus!
