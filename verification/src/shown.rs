//! How text is shown to the user through std's formatting: a name printed
//! as `{:?}` prints it, quoted and escaped.
use vstd::prelude::*;

verus! {

/// What `format!("{:?}", s)` prints for the string `s`: quoted, with
/// quotes, backslashes and non-printable characters escaped.
pub uninterp spec fn debug_str(s: Seq<char>) -> Seq<char>;

/// An ASCII letter, digit, `-`, `_` or `.`: a char that `char::escape_debug`
/// leaves as it is.
pub open spec fn plain_char(c: char) -> bool {
    ('a' <= c && c <= 'z') || ('A' <= c && c <= 'Z') || ('0' <= c && c <= '9') || c == '-' || c == '_'
        || c == '.'
}

/// `<str as Debug>::fmt` through `format!("{:?}", s)`. Its result is named
/// `debug_str` of the text: std's escaping rules (which characters print
/// as `\u{..}`) take Unicode tables to state, so the contract claims only
/// that the output is a function of the text alone, and, as std documents
/// (the text in double quotes, each char through `char::escape_debug`),
/// that a text of plain chars comes back between double quotes unchanged.
#[verifier::external_body]
pub(crate) fn debug_quoted(s: &str) -> (r: String)
    ensures
        r@ == debug_str(s@),
        (forall|i: int| 0 <= i < s@.len() ==> plain_char(#[trigger] s@[i])) ==> r@ == seq!['"'] + s@ + seq!['"'],
{
    format!("{:?}", s)
}

/// What `format!("{:?}", Path::new(s))` prints for the path `s`.
pub uninterp spec fn debug_path_str(s: Seq<char>) -> Seq<char>;

/// `<Path as Debug>::fmt` through `format!("{:?}", Path::new(s))`. Named
/// like `debug_quoted`: the claim is only that the output is a function of
/// the path's text.
#[verifier::external_body]
pub(crate) fn debug_path(s: &str) -> (r: String)
    ensures
        r@ == debug_path_str(s@),
{
    format!("{:?}", std::path::Path::new(s))
}

} // verus!
