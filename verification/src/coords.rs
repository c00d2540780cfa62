//! The coordinate extractor: reads the inline positioning attribute text of a
//! fragment and returns its (x, y) pixel position.
//!
//! The attribute holds `top:<Y>px` and `left:<X>px`; the value between the
//! key and the following `px` is a plain decimal number with an optional
//! leading minus sign.  Coordinates are represented exactly in thousandths
//! of a pixel; fractional digits beyond the third are discarded, and whole
//! parts are limited to twelve digits so that every coordinate fits the
//! machine word.  A style without a usable key, or with a value outside this
//! grammar, yields no position, which callers report as a structural error.

use vstd::prelude::*;

use crate::digits::{
    all_digits, digits_to_u64, digits_val, dot_from, find_dot, lemma_digits_val_bound,
    lemma_pow10_values, pow10, scan_digit_run,
};
use crate::text::copy_range;

verus! {

/// The length of the maximal run of characters other than `p` starting at
/// `i`; the captured coordinate value extends to the first `p` after its key.
pub open spec fn nonp_run_len(s: Seq<char>, i: int) -> int
    decreases s.len() - i when 0 <= i <= s.len()
{
    if i < s.len() && s[i] != 'p' {
        1 + nonp_run_len(s, i + 1)
    } else {
        0
    }
}

/// The key text occurs at position `i` of `s`.
pub open spec fn key_at(s: Seq<char>, i: int, key: Seq<char>) -> bool {
    0 <= i && i + key.len() <= s.len() && s.subrange(i, i + key.len()) == key
}

/// A whole `key:<value>px` group matches at position `i`.
pub open spec fn style_match_at(s: Seq<char>, i: int, key: Seq<char>) -> bool {
    key_at(s, i, key) && {
        let j = i + key.len();
        let m = nonp_run_len(s, j);
        m >= 1 && j + m + 2 <= s.len() && s[j + m] == 'p' && s[j + m + 1] == 'x'
    }
}

/// The position of the leftmost match of the key group at or after `p`.
pub open spec fn find_style_from(s: Seq<char>, p: int, key: Seq<char>) -> Option<int>
    decreases s.len() - p when 0 <= p <= s.len()
{
    if p >= s.len() {
        None
    } else if style_match_at(s, p, key) {
        Some(p)
    } else {
        find_style_from(s, p + 1, key)
    }
}

/// The unsigned captured text is a plain decimal number: digits with at most
/// one point, at least one digit in all, and at most twelve whole digits.
pub open spec fn decimal_body_ok(t: Seq<char>) -> bool {
    match dot_from(t, 0) {
        None => 1 <= t.len() <= 12 && all_digits(t, 0, t.len() as int),
        Some(k) => k <= 12 && all_digits(t, 0, k) && all_digits(t, k + 1, t.len() - (k + 1)) && (
        k >= 1 || t.len() - (k + 1) >= 1),
    }
}

/// The value of an unsigned plain decimal text in thousandths, keeping the
/// first three fractional digits.
pub open spec fn decimal_body_millis(t: Seq<char>) -> int {
    match dot_from(t, 0) {
        None => digits_val(t, 0, t.len() as int) * 1000,
        Some(k) => {
            let fl = t.len() - (k + 1);
            let f3 = if fl > 3 { 3int } else { fl };
            digits_val(t, 0, k) * 1000 + digits_val(t, k + 1, f3) * pow10((3 - f3) as nat)
        },
    }
}

/// The coordinate value of a captured text, negative sign included.
pub open spec fn spec_coord_value(t: Seq<char>) -> Option<int> {
    if t.len() >= 1 && t[0] == '-' {
        if decimal_body_ok(t.subrange(1, t.len() as int)) {
            Some(-decimal_body_millis(t.subrange(1, t.len() as int)))
        } else {
            None
        }
    } else {
        if decimal_body_ok(t) {
            Some(decimal_body_millis(t))
        } else {
            None
        }
    }
}

/// The coordinate taken from the leftmost match of the key group, in
/// thousandths of a pixel.
pub open spec fn spec_coord(s: Seq<char>, key: Seq<char>) -> Option<int> {
    match find_style_from(s, 0, key) {
        None => None,
        Some(i) => spec_coord_value(
            s.subrange(i + key.len(), i + key.len() + nonp_run_len(s, i + key.len())),
        ),
    }
}

/// The (x, y) position held by a style text, in thousandths of a pixel.
pub open spec fn spec_position(style: Seq<char>) -> Option<(int, int)> {
    match (spec_coord(style, "left:"@), spec_coord(style, "top:"@)) {
        (Some(x), Some(y)) => Some((x, y)),
        _ => None,
    }
}

/// The length of the maximal run of characters other than `p` from `i`.
fn nonp_run(s: &Vec<char>, i: usize) -> (m: usize)
    requires
        i <= s@.len(),
    ensures
        m == nonp_run_len(s@, i as int),
        i + m <= s@.len(),
{
    let mut j = i;
    while j < s.len() && s[j] != 'p'
        invariant
            i <= j <= s@.len(),
            nonp_run_len(s@, i as int) == (j - i) + nonp_run_len(s@, j as int),
        decreases s@.len() - j,
    {
        j += 1;
    }
    j - i
}

/// The key text occurs at position `i`.
fn key_match(s: &Vec<char>, i: usize, key: &Vec<char>) -> (r: bool)
    requires
        i <= s@.len(),
    ensures
        r == key_at(s@, i as int, key@),
{
    if s.len() - i < key.len() {
        return false;
    }
    let slen = s.len();
    let mut j: usize = 0;
    while j < key.len()
        invariant
            0 <= j <= key@.len(),
            slen == s@.len(),
            i + key@.len() <= slen,
            forall|q: int| 0 <= q < j ==> s@[i + q] == key@[q],
        decreases key@.len() - j,
    {
        if s[i + j] != key[j] {
            assert(s@.subrange(i as int, i + key@.len())[j as int] != key@[j as int]);
            return false;
        }
        j += 1;
    }
    proof {
        assert(s@.subrange(i as int, i + key@.len()) =~= key@);
    }
    true
}

/// A whole `key:<value>px` group matches at position `i`.
fn style_match(s: &Vec<char>, i: usize, key: &Vec<char>) -> (r: bool)
    requires
        i <= s@.len(),
    ensures
        r == style_match_at(s@, i as int, key@),
{
    if !key_match(s, i, key) {
        return false;
    }
    let slen = s.len();
    assert(i + key@.len() <= slen);
    let j = i + key.len();
    let m = nonp_run(s, j);
    if m == 0 {
        return false;
    }
    if s.len() - (j + m) < 2 {
        return false;
    }
    s[j + m] == 'p' && s[j + m + 1] == 'x'
}

/// The value of an unsigned captured text in thousandths of a pixel.
fn decimal_millis(t: &Vec<char>) -> (r: Option<u64>)
    ensures
        match r {
            Some(v) => decimal_body_ok(t@) && v == decimal_body_millis(t@) && v
                < 1000000000000000u64,
            None => !decimal_body_ok(t@),
        },
{
    proof {
        lemma_pow10_values();
    }
    match find_dot(t) {
        None => {
            let n = t.len();
            if n < 1 || n > 12 {
                return None;
            }
            if scan_digit_run(t, 0) != n {
                return None;
            }
            let v = digits_to_u64(t, 0, n);
            proof {
                crate::digits::lemma_pow10_mono(n as nat, 12);
            }
            Some(v * 1000)
        },
        Some(k) => {
            let fl = t.len() - (k + 1);
            if k > 12 {
                return None;
            }
            if scan_digit_run(t, 0) != k {
                assert(!all_digits(t@, 0, k as int));
                return None;
            }
            if scan_digit_run(t, k + 1) != fl {
                assert(!all_digits(t@, k + 1, fl as int));
                return None;
            }
            if k == 0 && fl == 0 {
                return None;
            }
            let f3: usize = if fl > 3 {
                3
            } else {
                fl
            };
            let ip = digits_to_u64(t, 0, k);
            let fv = digits_to_u64(t, k + 1, f3);
            let scale: u64 = if f3 == 0 {
                1000
            } else if f3 == 1 {
                100
            } else if f3 == 2 {
                10
            } else {
                1
            };
            proof {
                crate::digits::lemma_pow10_mono(k as nat, 12);
                lemma_digits_val_bound(t@, k + 1, f3 as int);
                assert(f3 == 0 ==> digits_val(t@, k + 1, f3 as int) == 0);
                assert(fv * scale <= 999) by {
                    if f3 == 0 {
                        assert(fv == 0);
                    } else if f3 == 1 {
                        assert(fv < 10);
                    } else if f3 == 2 {
                        assert(fv < 100);
                    } else {
                        assert(fv < 1000);
                    }
                }
                assert(scale == pow10((3 - f3) as nat));
            }
            Some(ip * 1000 + fv * scale)
        },
    }
}

/// The signed coordinate value of a captured text.
fn coord_value(t: &Vec<char>) -> (r: Option<i64>)
    ensures
        match r {
            Some(v) => spec_coord_value(t@) == Some(v as int),
            None => spec_coord_value(t@) is None,
        },
{
    if t.len() >= 1 && t[0] == '-' {
        let body = copy_range(t, 1, t.len());
        match decimal_millis(&body) {
            Some(v) => Some(-(v as i64)),
            None => None,
        }
    } else {
        match decimal_millis(t) {
            Some(v) => Some(v as i64),
            None => None,
        }
    }
}

/// The coordinate taken from the leftmost match of the key group.
fn style_coord(s: &Vec<char>, key: &Vec<char>) -> (r: Option<i64>)
    ensures
        match r {
            Some(v) => spec_coord(s@, key@) == Some(v as int),
            None => spec_coord(s@, key@) is None,
        },
{
    let mut p: usize = 0;
    while p < s.len()
        invariant
            0 <= p <= s@.len(),
            find_style_from(s@, 0, key@) == find_style_from(s@, p as int, key@),
        decreases s@.len() - p,
    {
        if style_match(s, p, key) {
            let j = p + key.len();
            let m = nonp_run(s, j);
            let capture = copy_range(s, j, j + m);
            return coord_value(&capture);
        }
        p += 1;
    }
    None
}

/// Reads the (x, y) position of a fragment from its positioning style text,
/// in thousandths of a pixel.  `None` reports a style without usable
/// `left:`/`top:` groups, which callers surface as a structural error.
pub fn coords(style: &Vec<char>) -> (r: Option<(i64, i64)>)
    ensures
        match r {
            Some(p) => spec_position(style@) == Some((p.0 as int, p.1 as int)),
            None => spec_position(style@) is None,
        },
{
    let left = crate::text::str_to_chars("left:");
    let top = crate::text::str_to_chars("top:");
    let x = style_coord(style, &left);
    let y = style_coord(style, &top);
    match (x, y) {
        (Some(x), Some(y)) => Some((x, y)),
        _ => None,
    }
}

} // verus!
