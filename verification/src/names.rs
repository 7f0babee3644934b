//! The two rules for space names: the lookup guard every name passes before
//! it is joined onto the workspaces directory, and the stricter creation rule
//! for names being chosen.
use crate::text::{chars_of, push_str, trim, trim_bounds};
use vstd::prelude::*;

verus! {

/// `char::is_control`: the C0 and C1 control blocks and DEL (category Cc).
pub open spec fn is_cc(c: char) -> bool {
    c <= '\u{1f}' || ('\u{7f}' <= c && c <= '\u{9f}')
}

/// Unicode general category Cf (format), Unicode 16.0.
pub open spec fn is_cf(c: char) -> bool {
    let u = c as u32;
    ||| u == 0xAD
    ||| (0x600 <= u && u <= 0x605)
    ||| u == 0x61C
    ||| u == 0x6DD
    ||| u == 0x70F
    ||| (0x890 <= u && u <= 0x891)
    ||| u == 0x8E2
    ||| u == 0x180E
    ||| (0x200B <= u && u <= 0x200F)
    ||| (0x202A <= u && u <= 0x202E)
    ||| (0x2060 <= u && u <= 0x2064)
    ||| (0x2066 <= u && u <= 0x206F)
    ||| u == 0xFEFF
    ||| (0xFFF9 <= u && u <= 0xFFFB)
    ||| u == 0x110BD
    ||| u == 0x110CD
    ||| (0x13430 <= u && u <= 0x1343F)
    ||| (0x1BCA0 <= u && u <= 0x1BCA3)
    ||| (0x1D173 <= u && u <= 0x1D17A)
    ||| u == 0xE0001
    ||| (0xE0020 <= u && u <= 0xE007F)
}

/// A character that can break a one-row display or a log line, or make a
/// name read as a different name: controls, the line and paragraph
/// separators, and the invisible formatting characters.
pub open spec fn control_like(c: char) -> bool {
    is_cc(c) || c == '\u{2028}' || c == '\u{2029}' || is_cf(c)
}

/// Whether `c` is in Unicode general category Cf.
pub fn is_format_char(c: char) -> (r: bool)
    ensures
        r == is_cf(c),
{
    let u = c as u32;
    u == 0xAD || (0x600 <= u && u <= 0x605) || u == 0x61C || u == 0x6DD || u == 0x70F || (0x890
        <= u && u <= 0x891) || u == 0x8E2 || u == 0x180E || (0x200B <= u && u <= 0x200F) || (0x202A
        <= u && u <= 0x202E) || (0x2060 <= u && u <= 0x2064) || (0x2066 <= u && u <= 0x206F) || u
        == 0xFEFF || (0xFFF9 <= u && u <= 0xFFFB) || u == 0x110BD || u == 0x110CD || (0x13430 <= u
        && u <= 0x1343F) || (0x1BCA0 <= u && u <= 0x1BCA3) || (0x1D173 <= u && u <= 0x1D17A) || u
        == 0xE0001 || (0xE0020 <= u && u <= 0xE007F)
}

/// Whether `c` is a control, a line or paragraph separator, or a format character.
pub fn is_control_like(c: char) -> (r: bool)
    ensures
        r == control_like(c),
{
    c <= '\u{1f}' || ('\u{7f}' <= c && c <= '\u{9f}') || c == '\u{2028}' || c == '\u{2029}'
        || is_format_char(c)
}

/// `n` holds a control-like character.
pub open spec fn any_control_like(n: Seq<char>) -> bool {
    exists|i: int| 0 <= i < n.len() && control_like(#[trigger] n[i])
}

/// `n` holds a `/` or a `\`.
pub open spec fn has_separator(n: Seq<char>) -> bool {
    exists|i: int| 0 <= i < n.len() && (#[trigger] n[i] == '/' || n[i] == '\\')
}

pub open spec fn msg_empty() -> Seq<char> {
    "Space name cannot be empty"@
}

pub open spec fn msg_dots() -> Seq<char> {
    "Space name cannot be '.' or '..'"@
}

pub open spec fn msg_separator() -> Seq<char> {
    "Space name cannot contain '/' or '\\'"@
}

pub open spec fn msg_control() -> Seq<char> {
    "Space name cannot contain control or formatting characters"@
}

pub open spec fn msg_whitespace() -> Seq<char> {
    "Space name cannot start or end with whitespace"@
}

pub open spec fn msg_leading() -> Seq<char> {
    "Space name cannot start with '-' or '.'"@
}

/// The lookup guard's verdict on `n`: the message of the first clause it
/// breaks, or `None` when `n` is one plain path component.
pub open spec fn plain_component_error(n: Seq<char>) -> Option<Seq<char>> {
    if n.len() == 0 {
        Some(msg_empty())
    } else if n == seq!['.'] || n == seq!['.', '.'] {
        Some(msg_dots())
    } else if has_separator(n) {
        Some(msg_separator())
    } else if any_control_like(n) {
        Some(msg_control())
    } else {
        None
    }
}

/// The creation rule's verdict on `n`: the message of the first clause it
/// breaks, or `None` when a space may be created under that name.
pub open spec fn space_name_error(n: Seq<char>) -> Option<Seq<char>> {
    if n.len() == 0 {
        Some(msg_empty())
    } else if trim(n) != n {
        Some(msg_whitespace())
    } else if has_separator(n) {
        Some(msg_separator())
    } else if n[0] == '-' || n[0] == '.' {
        Some(msg_leading())
    } else if any_control_like(n) {
        Some(msg_control())
    } else {
        plain_component_error(n)
    }
}

fn find_separator(v: &[char]) -> (r: bool)
    ensures
        r == has_separator(v@),
{
    let mut i: usize = 0;
    while i < v.len()
        invariant
            0 <= i <= v.len(),
            forall|j: int| 0 <= j < i ==> !(v@[j] == '/' || v@[j] == '\\'),
        decreases v.len() - i,
    {
        if v[i] == '/' || v[i] == '\\' {
            return true;
        }
        i = i + 1;
    }
    false
}

fn find_control_like(v: &[char]) -> (r: bool)
    ensures
        r == any_control_like(v@),
{
    let mut i: usize = 0;
    while i < v.len()
        invariant
            0 <= i <= v.len(),
            forall|j: int| 0 <= j < i ==> !control_like(v@[j]),
        decreases v.len() - i,
    {
        if is_control_like(v[i]) {
            return true;
        }
        i = i + 1;
    }
    false
}

fn is_dot_or_dots(v: &[char]) -> (r: bool)
    ensures
        r == (v@ == seq!['.'] || v@ == seq!['.', '.']),
{
    if v.len() == 1 {
        let r = v[0] == '.';
        assert(r ==> v@ =~= seq!['.']);
        r
    } else if v.len() == 2 {
        let r = v[0] == '.' && v[1] == '.';
        assert(r ==> v@ =~= seq!['.', '.']);
        r
    } else {
        false
    }
}

fn plain_component_check(v: &[char]) -> (r: Result<(), String>)
    ensures
        match plain_component_error(v@) {
            None => r is Ok,
            Some(m) => r matches Err(e) && e@ == m,
        },
{
    if v.len() == 0 {
        return Err(String::from_str("Space name cannot be empty"));
    }
    if is_dot_or_dots(v) {
        return Err(String::from_str("Space name cannot be '.' or '..'"));
    }
    if find_separator(v) {
        return Err(String::from_str("Space name cannot contain '/' or '\\'"));
    }
    if find_control_like(v) {
        return Err(String::from_str("Space name cannot contain control or formatting characters"));
    }
    Ok(())
}

/// The lookup guard: `name` must be one plain path component before it is
/// joined onto the workspaces directory. Rejects the empty name, `.` and
/// `..`, any `/` or `\`, and control or formatting characters, with the
/// message of the first clause broken. Deliberately no stricter: a hand-made
/// `.old` or `-scratch` space stays addressable.
pub fn require_plain_component(name: &str) -> (r: Result<(), String>)
    ensures
        match plain_component_error(name@) {
            None => r is Ok,
            Some(m) => r matches Err(e) && e@ == m,
        },
{
    let v = chars_of(name);
    plain_component_check(&v)
}

/// The creation rule for a space name: the lookup guard plus no leading or
/// trailing whitespace and no leading `-` or `.`. Names are rejected, never
/// rewritten; the error is the first clause broken.
pub fn validate_space_name(name: &str) -> (r: Result<(), String>)
    ensures
        match space_name_error(name@) {
            None => r is Ok,
            Some(m) => r matches Err(e) && e@ == m,
        },
{
    let v = chars_of(name);
    if v.len() == 0 {
        return Err(String::from_str("Space name cannot be empty"));
    }
    let (a, b) = trim_bounds(&v);
    if a != 0 || b != v.len() {
        proof {
            if trim(v@) == v@ {
                assert(v@.subrange(a as int, b as int).len() == v@.len());
            }
        }
        return Err(String::from_str("Space name cannot start or end with whitespace"));
    }
    assert(v@.subrange(0, v@.len() as int) =~= v@);
    if find_separator(&v) {
        return Err(String::from_str("Space name cannot contain '/' or '\\'"));
    }
    if v[0] == '-' || v[0] == '.' {
        return Err(String::from_str("Space name cannot start with '-' or '.'"));
    }
    if find_control_like(&v) {
        return Err(String::from_str("Space name cannot contain control or formatting characters"));
    }
    plain_component_check(&v)
}

/// The lookup guard with the offending name in the message:
/// `invalid space name "..": Space name cannot be '.' or '..'`, the name
/// printed as `{:?}` prints it so a control character shows escaped.
pub fn checked_space_name(name: &str) -> (r: Result<(), String>)
    ensures
        match plain_component_error(name@) {
            None => r is Ok,
            Some(m) => r matches Err(e) && e@ == "invalid space name "@ + crate::shown::debug_str(
                name@,
            ) + ": "@ + m,
        },
        (r is Err && forall|i: int| 0 <= i < name@.len() ==> crate::shown::plain_char(#[trigger] name@[i]))
            ==> (r matches Err(e) && e@ == "invalid space name \""@ + name@ + "\": "@
            + plain_component_error(name@).unwrap()),
{
    match require_plain_component(name) {
        Ok(()) => Ok(()),
        Err(e) => {
            let mut out = String::from_str("invalid space name ");
            let shown = crate::shown::debug_quoted(name);
            push_str(&mut out, shown.as_str());
            push_str(&mut out, ": ");
            push_str(&mut out, e.as_str());
            proof {
                reveal_strlit("\"");
                reveal_strlit("invalid space name ");
                reveal_strlit("invalid space name \"");
                reveal_strlit(": ");
                reveal_strlit("\": ");
                if forall|i: int| 0 <= i < name@.len() ==> crate::shown::plain_char(#[trigger] name@[i]) {
                    assert(shown@ == seq!['"'] + name@ + seq!['"']);
                    assert(out@ =~= "invalid space name \""@ + name@ + "\": "@ + e@);
                }
            }
            Err(out)
        },
    }
}

/// The creation rule is stricter than the lookup guard: every name a space
/// may be created under is one plain path component, so a space this app
/// created can always be looked up again; and a name the guard refuses is
/// refused at creation with the same first message for an empty name and
/// for a separator.
pub proof fn lemma_creation_rule_is_stricter(n: Seq<char>)
    ensures
        space_name_error(n) is None ==> plain_component_error(n) is None,
        plain_component_error(n) is Some ==> space_name_error(n) is Some,
{
}

} // verus!
