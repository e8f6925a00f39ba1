//! Slugs: the agent-supplied names that become atom and document ids.
use vstd::prelude::*;

use crate::text::{chars_of, is_whitespace, is_ws};

verus! {

/// Characters a slug may not contain (they are unsafe in file names).
pub open spec fn is_forbidden_slug_char(c: char) -> bool {
    c == '<' || c == '>' || c == ':' || c == '"' || c == '/' || c == '\\' || c == '|' || c == '?'
        || c == '*'
}

/// A character a slug may not start or end with.
pub open spec fn is_bad_slug_edge(c: char) -> bool {
    is_ws(c) || c == '.' || c == '_'
}

/// Why `s` is not a valid slug, checked in this order; `None` when it is valid.
pub open spec fn slug_problem(s: Seq<char>) -> Option<Seq<char>> {
    if s.len() == 0 {
        Some("slug must be non-empty"@)
    } else if s.len() > 32 {
        Some("slug must be at most 32 Unicode scalars"@)
    } else if is_bad_slug_edge(s[0]) || is_bad_slug_edge(s.last()) {
        Some("slug must not start or end with whitespace, `.`, or `_`"@)
    } else if exists|i: int| 0 <= i < s.len() && is_forbidden_slug_char(#[trigger] s[i]) {
        Some("slug contains a forbidden character"@)
    } else {
        None
    }
}

fn is_forbidden(c: char) -> (r: bool)
    ensures
        r == is_forbidden_slug_char(c),
{
    c == '<' || c == '>' || c == ':' || c == '"' || c == '/' || c == '\\' || c == '|' || c == '?'
        || c == '*'
}

fn bad_edge(c: char) -> (r: bool)
    ensures
        r == is_bad_slug_edge(c),
{
    is_whitespace(c) || c == '.' || c == '_'
}

/// Checks an agent-supplied slug, used as the id of an atom or document: 1 to 32
/// Unicode scalars, not starting or ending with whitespace, `.` or `_`, and free of
/// `< > : " / \ | ? *`.
pub fn validate_slug(slug: &str) -> (r: Result<(), String>)
    ensures
        match r {
            Ok(()) => slug_problem(slug@) is None,
            Err(m) => slug_problem(slug@) == Some(m@),
        },
{
    let chars = chars_of(slug);
    if chars.len() == 0 {
        return Err(String::from_str("slug must be non-empty"));
    }
    if chars.len() > 32 {
        return Err(String::from_str("slug must be at most 32 Unicode scalars"));
    }
    let first = chars[0];
    let last = chars[chars.len() - 1];
    if bad_edge(first) || bad_edge(last) {
        return Err(String::from_str("slug must not start or end with whitespace, `.`, or `_`"));
    }
    let mut i: usize = 0;
    while i < chars.len()
        invariant
            i <= chars@.len(),
            chars@ == slug@,
            1 <= chars@.len() <= 32,
            !is_bad_slug_edge(chars@[0]),
            !is_bad_slug_edge(chars@.last()),
            forall|j: int| 0 <= j < i ==> !is_forbidden_slug_char(#[trigger] chars@[j]),
        decreases chars@.len() - i,
    {
        if is_forbidden(chars[i]) {
            assert(is_forbidden_slug_char(slug@[i as int]));
            return Err(String::from_str("slug contains a forbidden character"));
        }
        i = i + 1;
    }
    Ok(())
}

/// A slug is accepted exactly when it has 1 to 32 characters, neither starts nor
/// ends with whitespace, `.` or `_`, and holds none of `< > : " / \\ | ? *`.
pub proof fn lemma_slug_rule(s: Seq<char>)
    ensures
        slug_problem(s) is None <==> {
            &&& 1 <= s.len() <= 32
            &&& !is_ws(s[0]) && s[0] != '.' && s[0] != '_'
            &&& !is_ws(s.last()) && s.last() != '.' && s.last() != '_'
            &&& forall|i: int|
                0 <= i < s.len() ==> !(#[trigger] s[i] == '<' || s[i] == '>' || s[i] == ':' || s[i]
                    == '"' || s[i] == '/' || s[i] == '\\' || s[i] == '|' || s[i] == '?' || s[i] == '*')
        },
{
}

} // verus!
