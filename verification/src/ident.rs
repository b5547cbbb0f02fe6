//! Validity of schema identifiers.
//!
//! A catalog value (for example an enum member) can only stand as an entity
//! name in the schema description when it is a plain identifier: ASCII
//! letters, digits and underscores, not starting with a digit.  The engine
//! never synthesizes a substitute identifier for an invalid value.

use vstd::prelude::*;

verus! {

/// A character that may open an identifier: an ASCII letter or `_`.
pub open spec fn is_ident_start(c: char) -> bool {
    ('a' as u32) <= (c as u32) && (c as u32) <= ('z' as u32)
        || ('A' as u32) <= (c as u32) && (c as u32) <= ('Z' as u32)
        || c == '_'
}

/// A character that may continue an identifier: an ASCII letter, a digit
/// or `_`.
pub open spec fn is_ident_char(c: char) -> bool {
    is_ident_start(c) || ('0' as u32) <= (c as u32) && (c as u32) <= ('9' as u32)
}

/// A valid identifier is non-empty, opens with a letter or `_`, and
/// continues with letters, digits or `_`.
pub open spec fn is_valid_identifier(s: Seq<char>) -> bool {
    &&& s.len() > 0
    &&& is_ident_start(s[0])
    &&& forall|i: int| 1 <= i < s.len() ==> is_ident_char(#[trigger] s[i])
}

fn ident_start(c: char) -> (b: bool)
    ensures
        b == is_ident_start(c),
{
    let u = c as u32;
    ('a' as u32) <= u && u <= ('z' as u32) || ('A' as u32) <= u && u <= ('Z' as u32) || c == '_'
}

fn ident_char(c: char) -> (b: bool)
    ensures
        b == is_ident_char(c),
{
    let u = c as u32;
    ident_start(c) || ('0' as u32) <= u && u <= ('9' as u32)
}

/// Decides whether `s` is a valid identifier.
pub fn valid_identifier(s: &str) -> (b: bool)
    ensures
        b == is_valid_identifier(s@),
{
    let n = s.unicode_len();
    if n == 0 {
        return false;
    }
    if !ident_start(s.get_char(0)) {
        return false;
    }
    let mut i: usize = 1;
    while i < n
        invariant
            1 <= i <= n,
            n == s@.len(),
            is_ident_start(s@[0]),
            forall|k: int| 1 <= k < i ==> is_ident_char(#[trigger] s@[k]),
        decreases n - i,
    {
        if !ident_char(s.get_char(i)) {
            return false;
        }
        i += 1;
    }
    true
}

} // verus!
