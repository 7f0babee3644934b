//! The configuration: where repos are looked for, how deep, how long the
//! repo cache stays fresh, and where workspaces live; and where the
//! configuration and the cache are kept.
use crate::paths::{join, path_join};
use crate::text::{dec, digit, join_with, pieces_at, trim};
use vstd::prelude::*;

verus! {

/// Where repos are found.
pub struct RepoConfig {
    pub roots: Vec<String>,
    pub max_depth: u32,
    pub cache_age_secs: u64,
}

/// Where workspaces live.
pub struct WorkspaceConfig {
    pub dir: String,
}

/// The whole configuration.
pub struct SpaceConfig {
    pub repos: RepoConfig,
    pub workspaces: WorkspaceConfig,
}

/// `dirs::home_dir`, as text. It reads the environment (`$HOME`, then the
/// password database), so nothing is claimed of what it returns.
#[verifier::external_body]
fn home_dir() -> (r: Option<String>) {
    dirs::home_dir().map(|p| p.to_string_lossy().into_owned())
}

/// The defaults for a home directory `home` (`.` when there is none):
/// repos under `~/projects`, three levels deep, a cache fresh for an hour,
/// workspaces in `~/workspaces`.
pub open spec fn default_spec(c: SpaceConfig, home: Option<String>) -> bool {
    let h = match home {
        Some(h) => h@,
        None => "."@,
    };
    &&& c.repos.roots@.len() == 1
    &&& c.repos.roots@[0]@ == join(h, "projects"@)
    &&& c.repos.max_depth == 3
    &&& c.repos.cache_age_secs == 3600
    &&& c.workspaces.dir@ == join(h, "workspaces"@)
}

/// Where the configuration directory is for the home directory `home`:
/// `~/.config/space` (`.config/space` when there is no home directory).
pub open spec fn config_dir_spec(home: Option<String>) -> Seq<char> {
    join(
        join(
            match home {
                Some(h) => h@,
                None => seq![],
            },
            ".config"@,
        ),
        "space"@,
    )
}

impl SpaceConfig {
    /// The defaults for the home directory `home`.
    pub fn default_with_home(home: Option<String>) -> (r: Self)
        ensures
            default_spec(r, home),
    {
        let h = match &home {
            Some(h) => h.clone(),
            None => String::from_str("."),
        };
        let mut roots: Vec<String> = Vec::new();
        roots.push(path_join(h.as_str(), "projects"));
        SpaceConfig {
            repos: RepoConfig { roots, max_depth: 3, cache_age_secs: 3600 },
            workspaces: WorkspaceConfig { dir: path_join(h.as_str(), "workspaces") },
        }
    }

    /// The defaults for the user's home directory.
    pub fn default() -> (r: Self)
        ensures
            exists|home: Option<String>| default_spec(r, home),
    {
        let home = home_dir();
        let r = Self::default_with_home(home);
        assert(default_spec(r, home));
        r
    }

    /// The configuration directory for the home directory `home`.
    pub fn config_dir_from(home: Option<String>) -> (r: String)
        ensures
            r@ == config_dir_spec(home),
    {
        let h = match home {
            Some(h) => h,
            None => String::new(),
        };
        let base = path_join(h.as_str(), ".config");
        path_join(base.as_str(), "space")
    }

    /// `~/.config/space`, for the home directory the environment names.
    pub fn config_dir() -> (r: String)
        ensures
            exists|home: Option<String>| r@ == config_dir_spec(home),
    {
        let home = home_dir();
        let r = Self::config_dir_from(home);
        assert(r@ == config_dir_spec(home));
        r
    }

    /// The configuration file, `config.toml` in the configuration directory.
    pub fn config_path() -> (r: String)
        ensures
            exists|home: Option<String>| r@ == join(config_dir_spec(home), "config.toml"@),
    {
        let d = Self::config_dir();
        path_join(d.as_str(), "config.toml")
    }

    /// The repo cache, `repos.cache` in the configuration directory.
    pub fn cache_path() -> (r: String)
        ensures
            exists|home: Option<String>| r@ == join(config_dir_spec(home), "repos.cache"@),
    {
        let d = Self::config_dir();
        path_join(d.as_str(), "repos.cache")
    }
}

/// The repo roots typed as a comma-separated list: each piece trimmed.
pub fn roots_from_text(text: &str) -> (r: Vec<String>)
    ensures
        crate::text::strings_view(r@) == crate::text::pieces_at(text@, ',').map_values(|p: Seq<char>| crate::text::trim(p)),
{
    let v = crate::text::chars_of(text);
    let pieces = crate::text::split_at_char(v.as_slice(), ',');
    let mut out: Vec<String> = Vec::new();
    let mut k: usize = 0;
    while k < pieces.len()
        invariant
            0 <= k <= pieces.len(),
            crate::text::lines_view(pieces@) == crate::text::pieces_at(text@, ','),
            crate::text::strings_view(out@) == crate::text::lines_view(pieces@).subrange(0, k as int).map_values(|p: Seq<char>| crate::text::trim(p)),
        decreases pieces.len() - k,
    {
        let t = crate::text::trimmed(pieces[k].as_slice());
        let ghost old_o = crate::text::strings_view(out@);
        out.push(crate::text::string_of(&t));
        proof {
            let pv = crate::text::lines_view(pieces@);
            assert(pv[k as int] == pieces@[k as int]@);
            assert(crate::text::strings_view(out@) =~= old_o.push(crate::text::trim(pv[k as int])));
            assert(pv.subrange(0, k + 1).map_values(|p: Seq<char>| crate::text::trim(p)) =~= pv.subrange(0, k as int).map_values(|p: Seq<char>| crate::text::trim(p)).push(crate::text::trim(pv[k as int])));
        }
        k = k + 1;
    }
    assert(crate::text::lines_view(pieces@).subrange(0, k as int) =~= crate::text::lines_view(pieces@));
    out
}

/// The value of a run of decimal digits.
pub open spec fn digits_value(s: Seq<char>) -> nat
    decreases s.len(),
{
    if s.len() == 0 {
        0
    } else {
        digits_value(s.drop_last()) * 10 + ((s.last() as u32) - ('0' as u32)) as nat
    }
}

pub open spec fn all_digits(s: Seq<char>) -> bool {
    forall|i: int| 0 <= i < s.len() ==> '0' <= #[trigger] s[i] && s[i] <= '9'
}

/// What `str::parse::<u64>` accepts: an optional `+`, then one or more
/// decimal digits, with no other text, of a value that fits.
pub open spec fn parsed_u64(s: Seq<char>) -> Option<u64> {
    let body = if s.len() > 0 && s[0] == '+' {
        s.drop_first()
    } else {
        s
    };
    if body.len() > 0 && all_digits(body) && digits_value(body) <= u64::MAX {
        Some(digits_value(body) as u64)
    } else {
        None
    }
}

/// A number typed into the configuration editor, or `old` when the text is
/// not one (`text.parse().unwrap_or(old)`).
pub fn parse_u64_or(text: &str, old: u64) -> (r: u64)
    ensures
        r == (match parsed_u64(text@) {
            Some(n) => n,
            None => old,
        }),
{
    let v = crate::text::chars_of(text);
    let start: usize = if v.len() > 0 && v[0] == '+' { 1 } else { 0 };
    let ghost body = if v@.len() > 0 && v@[0] == '+' { v@.drop_first() } else { v@ };
    assert(body =~= v@.subrange(start as int, v@.len() as int));
    if start == v.len() {
        return old;
    }
    let mut acc: u64 = 0;
    let mut i: usize = start;
    while i < v.len()
        invariant
            start <= i <= v.len(),
            v@ == text@,
            body == v@.subrange(start as int, v@.len() as int),
            body == (if text@.len() > 0 && text@[0] == '+' {
                text@.drop_first()
            } else {
                text@
            }),
            all_digits(v@.subrange(start as int, i as int)),
            acc == digits_value(v@.subrange(start as int, i as int)),
        decreases v.len() - i,
    {
        let c = v[i];
        let ghost pre = v@.subrange(start as int, i as int);
        assert(v@.subrange(start as int, i + 1).drop_last() =~= pre);
        if !('0' <= c && c <= '9') {
            proof {
                assert(body[i - start] == c);
                assert(!all_digits(body));
            }
            return old;
        }
        let d: u64 = (c as u32 - '0' as u32) as u64;
        if acc > (u64::MAX - d) / 10 {
            proof {
                assert(digits_value(v@.subrange(start as int, i + 1)) == acc * 10 + d);
                assert(acc * 10 + d > u64::MAX) by (nonlinear_arith)
                    requires
                        acc > (u64::MAX - d) / 10,
                        d <= 9,
                ;
                lemma_digits_grow(body, (i + 1 - start) as int);
                assert(body.subrange(0, (i + 1 - start) as int) =~= v@.subrange(start as int, i + 1));
                assert(digits_value(body) > u64::MAX);
            }
            return old;
        }
        assert(acc * 10 + d <= u64::MAX) by (nonlinear_arith)
            requires
                acc <= (u64::MAX - d) / 10,
                d <= 9,
        ;
        acc = acc * 10 + d;
        i = i + 1;
        assert(all_digits(v@.subrange(start as int, i as int))) by {
            assert forall|k: int| 0 <= k < i - start implies '0' <= #[trigger] v@.subrange(start as int, i as int)[k] && v@.subrange(start as int, i as int)[k] <= '9' by {
                if k < i - 1 - start {
                    assert(v@.subrange(start as int, i as int)[k] == pre[k]);
                }
            }
        }
    }
    assert(v@.subrange(start as int, i as int) =~= body);
    acc
}

/// A longer run of digits is worth at least as much as its prefix.
proof fn lemma_digits_grow(s: Seq<char>, k: int)
    requires
        0 <= k <= s.len(),
    ensures
        digits_value(s) >= digits_value(s.subrange(0, k)),
    decreases s.len() - k,
{
    if k < s.len() {
        lemma_digits_grow(s, k + 1);
        assert(s.subrange(0, k + 1).drop_last() =~= s.subrange(0, k));
        assert(digits_value(s.subrange(0, k + 1)) >= digits_value(s.subrange(0, k)) * 10) by (nonlinear_arith)
            requires
                digits_value(s.subrange(0, k + 1)) == digits_value(s.subrange(0, k)) * 10 + ((s.subrange(0, k + 1).last() as u32) - ('0' as u32)) as nat,
        ;
        assert(digits_value(s.subrange(0, k)) * 10 >= digits_value(s.subrange(0, k))) by (nonlinear_arith);
    } else {
        assert(s.subrange(0, k) =~= s);
    }
}

/// A number typed for a `u32` setting, or `old` when the text is not one
/// that fits (`text.parse::<u32>().unwrap_or(old)`).
pub fn parse_u32_or(text: &str, old: u32) -> (r: u32)
    ensures
        r == (match parsed_u64(text@) {
            Some(n) => if n <= u32::MAX { n as u32 } else { old },
            None => old,
        }),
{
    let n = parse_u64_or(text, u64::MAX);
    if n <= u32::MAX as u64 {
        proof {
            if parsed_u64(text@) is None {
                assert(n == u64::MAX);
            }
        }
        n as u32
    } else {
        old
    }
}

proof fn lemma_digit_value(k: nat)
    requires
        k < 10,
    ensures
        '0' <= digit(k) <= '9',
        ((digit(k) as u32) - ('0' as u32)) as nat == k,
{
}

proof fn lemma_dec_reads_back(n: nat)
    ensures
        dec(n).len() >= 1,
        all_digits(dec(n)),
        digits_value(dec(n)) == n,
    decreases n,
{
    lemma_digit_value(n % 10);
    if n < 10 {
        assert(dec(n) == seq![digit(n)]);
        assert(dec(n).drop_last() =~= Seq::<char>::empty());
        assert(digits_value(dec(n)) == digits_value(Seq::<char>::empty()) * 10 + ((digit(n) as u32) - ('0' as u32)) as nat);
        assert(n % 10 == n);
    } else {
        lemma_dec_reads_back(n / 10);
        let s = dec(n / 10);
        let d = digit(n % 10);
        assert(dec(n) == s.push(d));
        assert(s.push(d).drop_last() =~= s);
        assert(digits_value(s.push(d)) == digits_value(s) * 10 + ((d as u32) - ('0' as u32)) as nat);
        assert(n == (n / 10) * 10 + n % 10);
        assert forall|i: int| 0 <= i < s.push(d).len() implies '0' <= #[trigger] s.push(d)[i] && s.push(d)[i] <= '9' by {
            if i < s.len() {
                assert(s.push(d)[i] == s[i]);
            }
        }
    }
}

/// The editor shows each number as `{}` prints it, so pressing enter on a
/// setting keeps its value: the decimal text of any `u64` reads back as
/// that number.
pub proof fn lemma_numbers_read_back(n: u64)
    ensures
        parsed_u64(dec(n as nat)) == Some(n),
{
    lemma_dec_reads_back(n as nat);
    let s = dec(n as nat);
    assert('0' <= s[0] && s[0] <= '9');
}

proof fn lemma_pieces_whole(b: Seq<char>, sep: char)
    requires
        forall|i: int| 0 <= i < b.len() ==> b[i] != sep,
    ensures
        pieces_at(b, sep) == seq![b],
    decreases b.len(),
{
    if b.len() > 0 {
        lemma_pieces_whole(b.drop_last(), sep);
        assert(b[b.len() - 1] != sep);
        assert(pieces_at(b, sep) == pieces_at(b.drop_last(), sep).update(0, b.drop_last().push(b.last())));
        assert(b.drop_last().push(b.last()) =~= b);
        assert(seq![b.drop_last()].update(0, b.drop_last().push(b.last())) =~= seq![b]);
    } else {
        assert(b =~= Seq::<char>::empty());
    }
}

proof fn lemma_pieces_after_sep(a: Seq<char>, b: Seq<char>, sep: char)
    requires
        forall|i: int| 0 <= i < b.len() ==> b[i] != sep,
    ensures
        pieces_at(a + seq![sep] + b, sep) == pieces_at(a, sep).push(b),
    decreases b.len(),
{
    let t = a + seq![sep] + b;
    if b.len() == 0 {
        assert(t.drop_last() =~= a);
        assert(t.last() == sep);
        assert(b =~= Seq::<char>::empty());
    } else {
        lemma_pieces_after_sep(a, b.drop_last(), sep);
        assert(t.drop_last() =~= a + seq![sep] + b.drop_last());
        assert(t.last() == b.last());
        assert(b[b.len() - 1] != sep);
        let rest = pieces_at(a, sep).push(b.drop_last());
        assert(b.drop_last().push(b.last()) =~= b);
        assert(rest.update(rest.len() - 1, rest.last().push(b.last())) =~= pieces_at(a, sep).push(b));
    }
}

proof fn lemma_pieces_of_join(parts: Seq<Seq<char>>, sep: char)
    requires
        parts.len() >= 1,
        forall|k: int, i: int| 0 <= k < parts.len() && 0 <= i < parts[k].len() ==> #[trigger] parts[k][i] != sep,
    ensures
        pieces_at(join_with(parts, seq![sep]), sep) == parts,
    decreases parts.len(),
{
    if parts.len() == 1 {
        lemma_pieces_whole(parts[0], sep);
        assert(seq![parts[0]] =~= parts);
    } else {
        let init = parts.drop_last();
        assert forall|k: int, i: int| 0 <= k < init.len() && 0 <= i < init[k].len() implies #[trigger] init[k][i] != sep by {
            assert(init[k] == parts[k]);
        }
        lemma_pieces_of_join(init, sep);
        let last = parts.last();
        assert forall|i: int| 0 <= i < last.len() implies last[i] != sep by {
            assert(parts[parts.len() - 1][i] == last[i]);
        }
        lemma_pieces_after_sep(join_with(init, seq![sep]), last, sep);
        assert(init.push(last) =~= parts);
    }
}

/// The editor shows the roots joined with `,`, so pressing enter on them
/// keeps them: roots that hold no comma and no whitespace at either end
/// read back as themselves. (An empty list does not: it reads back as one
/// empty root.)
pub proof fn lemma_roots_read_back(roots: Seq<Seq<char>>)
    requires
        roots.len() >= 1,
        forall|k: int, i: int| 0 <= k < roots.len() && 0 <= i < roots[k].len() ==> #[trigger] roots[k][i] != ',',
        forall|k: int| 0 <= k < roots.len() ==> trim(#[trigger] roots[k]) == roots[k],
    ensures
        pieces_at(join_with(roots, ","@), ',').map_values(|p: Seq<char>| trim(p)) == roots,
{
    reveal_strlit(",");
    assert(","@ =~= seq![',']);
    lemma_pieces_of_join(roots, ',');
    assert(roots.map_values(|p: Seq<char>| trim(p)) =~= roots);
}

} // verus!
