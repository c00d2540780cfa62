//! The item name normalizer: strips leading spaces and any repeated leading
//! bullet or substitution markers — `* `, `~ ` or `(Sub) ` — from a
//! description cell, returning the remainder.  Stripping always leaves at
//! least one character, so a text that is nothing but markers keeps its
//! final marker; a text with no markers is returned unchanged.

use vstd::prelude::*;

use crate::text::copy_range;

verus! {

/// The length of the single marker at position `i`, or zero.
pub open spec fn marker_len_at(s: Seq<char>, i: int) -> int {
    if i + 2 <= s.len() && s[i] == '*' && s[i + 1] == ' ' {
        2
    } else if i + 2 <= s.len() && s[i] == '~' && s[i + 1] == ' ' {
        2
    } else if i + 6 <= s.len() && s[i] == '(' && s[i + 1] == 'S' && s[i + 2] == 'u' && s[i + 3]
        == 'b' && s[i + 4] == ')' && s[i + 5] == ' ' {
        6
    } else {
        0
    }
}

/// The position after the leading spaces, keeping at least one character.
pub open spec fn space_start(s: Seq<char>, i: int) -> int
    decreases s.len() - i when 0 <= i <= s.len()
{
    if s.len() - i >= 2 && s[i] == ' ' {
        space_start(s, i + 1)
    } else {
        i
    }
}

/// The position after the repeated leading markers, keeping at least one
/// character.
pub open spec fn marker_end(s: Seq<char>, i: int) -> int
    decreases s.len() - i when 0 <= i <= s.len()
{
    let m = marker_len_at(s, i);
    if m > 0 && s.len() - i > m {
        marker_end(s, i + m)
    } else {
        i
    }
}

/// The normalized item name: the text after the leading spaces and repeated
/// markers.
pub open spec fn spec_normalize_name(s: Seq<char>) -> Seq<char> {
    s.subrange(marker_end(s, space_start(s, 0)), s.len() as int)
}

/// The length of the single marker at position `i`, or zero.
fn marker_at(s: &Vec<char>, i: usize) -> (m: usize)
    requires
        i <= s@.len(),
    ensures
        m == marker_len_at(s@, i as int),
        i + m <= s@.len(),
{
    let slen = s.len();
    if slen - i >= 2 && s[i] == '*' && s[i + 1] == ' ' {
        2
    } else if slen - i >= 2 && s[i] == '~' && s[i + 1] == ' ' {
        2
    } else if slen - i >= 6 && s[i] == '(' && s[i + 1] == 'S' && s[i + 2] == 'u' && s[i + 3]
        == 'b' && s[i + 4] == ')' && s[i + 5] == ' ' {
        6
    } else {
        0
    }
}

/// Strips leading spaces and repeated leading markers from a description
/// cell.
pub fn normalize_name(s: &Vec<char>) -> (r: Vec<char>)
    ensures
        r@ == spec_normalize_name(s@),
{
    let slen = s.len();
    let mut i: usize = 0;
    while slen - i >= 2 && s[i] == ' '
        invariant
            slen == s@.len(),
            0 <= i <= slen,
            space_start(s@, 0) == space_start(s@, i as int),
        decreases slen - i,
    {
        i += 1;
    }
    let mut j = i;
    loop
        invariant
            slen == s@.len(),
            0 <= j <= slen,
            marker_end(s@, space_start(s@, 0)) == marker_end(s@, j as int),
        ensures
            slen == s@.len(),
            0 <= j <= slen,
            marker_end(s@, space_start(s@, 0)) == j as int,
        decreases slen - j,
    {
        let m = marker_at(s, j);
        if m > 0 && slen - j > m {
            j += m;
        } else {
            break;
        }
    }
    copy_range(s, j, slen)
}

} // verus!
