//! Decimal-digit primitives: spec-level values of digit runs, their bounds,
//! and executable digit-run parsing.  Shared by the coordinate extractor and
//! the price normalizer.

use vstd::prelude::*;

verus! {

/// The character is a decimal digit.
pub open spec fn is_digit(c: char) -> bool {
    48 <= c as u32 <= 57
}

/// The numeric value of a digit character.
pub open spec fn digit_val(c: char) -> int {
    c as u32 - 48
}

/// Every character of `s[i..i+n]` is a decimal digit.
pub open spec fn all_digits(s: Seq<char>, i: int, n: int) -> bool {
    forall|j: int| i <= j < i + n ==> is_digit(s[j])
}

/// The value of `s[i..i+n]` read as decimal digits, most significant first.
pub open spec fn digits_val(s: Seq<char>, i: int, n: int) -> int
    decreases n,
{
    if n <= 0 {
        0
    } else {
        digits_val(s, i, n - 1) * 10 + digit_val(s[i + n - 1])
    }
}

/// The length of the maximal digit run of `s` starting at `i`.
pub open spec fn digit_run_len(s: Seq<char>, i: int) -> int
    decreases s.len() - i when 0 <= i <= s.len()
{
    if i < s.len() && is_digit(s[i]) {
        1 + digit_run_len(s, i + 1)
    } else {
        0
    }
}

/// Ten to the power `n`.
pub open spec fn pow10(n: nat) -> int
    decreases n,
{
    if n == 0 {
        1
    } else {
        10 * pow10((n - 1) as nat)
    }
}

/// The concrete values of the small powers of ten used for overflow bounds.
pub proof fn lemma_pow10_values()
    ensures
        pow10(0) == 1,
        pow10(3) == 1000,
        pow10(12) == 1000000000000,
        pow10(15) == 1000000000000000,
        pow10(16) == 10000000000000000,
        pow10(18) == 1000000000000000000,
{
    reveal_with_fuel(pow10, 20);
    assert(pow10(1) == 10);
    assert(pow10(2) == 100);
    assert(pow10(3) == 1000);
    assert(pow10(4) == 10000);
    assert(pow10(5) == 100000);
    assert(pow10(6) == 1000000);
    assert(pow10(7) == 10000000);
    assert(pow10(8) == 100000000);
    assert(pow10(9) == 1000000000);
    assert(pow10(10) == 10000000000);
    assert(pow10(11) == 100000000000);
    assert(pow10(12) == 1000000000000);
    assert(pow10(13) == 10000000000000);
    assert(pow10(14) == 100000000000000);
    assert(pow10(15) == 1000000000000000);
    assert(pow10(16) == 10000000000000000);
    assert(pow10(17) == 100000000000000000);
    assert(pow10(18) == 1000000000000000000);
}

/// Powers of ten grow with the exponent.
pub proof fn lemma_pow10_mono(a: nat, b: nat)
    requires
        a <= b,
    ensures
        1 <= pow10(a) <= pow10(b),
    decreases b,
{
    if b == 0 {
    } else if a == b {
        lemma_pow10_mono((a - 1) as nat, (b - 1) as nat);
    } else {
        lemma_pow10_mono(a, (b - 1) as nat);
    }
}

/// A run of `n` digits has a value below ten to the `n`.
pub proof fn lemma_digits_val_bound(s: Seq<char>, i: int, n: int)
    requires
        n >= 0,
        all_digits(s, i, n),
    ensures
        0 <= digits_val(s, i, n) < pow10(n as nat),
    decreases n,
{
    if n > 0 {
        lemma_digits_val_bound(s, i, n - 1);
    }
}

/// The position of the first `.` of `t` at or after `p`.
pub open spec fn dot_from(t: Seq<char>, p: int) -> Option<int>
    decreases t.len() - p when 0 <= p <= t.len()
{
    if p >= t.len() {
        None
    } else if t[p] == '.' {
        Some(p)
    } else {
        dot_from(t, p + 1)
    }
}

/// The position of the first `.` of `t`.
pub fn find_dot(t: &Vec<char>) -> (r: Option<usize>)
    ensures
        match r {
            Some(k) => dot_from(t@, 0) == Some(k as int) && k < t@.len() && t@[k as int] == '.',
            None => dot_from(t@, 0) is None,
        },
{
    let mut p: usize = 0;
    while p < t.len()
        invariant
            0 <= p <= t@.len(),
            dot_from(t@, 0) == dot_from(t@, p as int),
        decreases t@.len() - p,
    {
        if t[p] == '.' {
            return Some(p);
        }
        p += 1;
    }
    None
}

/// Ten to the power `e`, as a machine word.
pub fn pow10_u64(e: usize) -> (r: u64)
    requires
        e <= 18,
    ensures
        r == pow10(e as nat),
{
    proof {
        lemma_pow10_values();
    }
    let mut r: u64 = 1;
    let mut j: usize = 0;
    while j < e
        invariant
            0 <= j <= e <= 18,
            r == pow10(j as nat),
            pow10(18) == 1000000000000000000,
        decreases e - j,
    {
        proof {
            lemma_pow10_mono(j as nat, 17);
            assert(pow10(18) == 10 * pow10(17));
        }
        r = r * 10;
        j += 1;
    }
    r
}

/// Ten to a sum of powers is the product of the powers.
pub proof fn lemma_pow10_add(a: nat, b: nat)
    ensures
        pow10(a + b) == pow10(a) * pow10(b),
    decreases a,
{
    if a == 0 {
    } else {
        lemma_pow10_add((a - 1) as nat, b);
        assert(pow10(a + b) == 10 * pow10((a - 1) as nat + b));
        assert(10 * (pow10((a - 1) as nat) * pow10(b)) == (10 * pow10((a - 1) as nat)) * pow10(
            b,
        )) by (nonlinear_arith);
    }
}

/// Decides whether a character is a decimal digit.
pub fn digit(c: char) -> (r: bool)
    ensures
        r == is_digit(c),
{
    let v = c as u32;
    48 <= v && v <= 57
}

/// The length of the maximal digit run of `s` starting at `i`.
pub fn scan_digit_run(s: &Vec<char>, i: usize) -> (n: usize)
    requires
        i <= s@.len(),
    ensures
        n == digit_run_len(s@, i as int),
        i + n <= s@.len(),
        all_digits(s@, i as int, n as int),
        i + n == s@.len() || !is_digit(s@[i + n]),
{
    let mut j = i;
    while j < s.len() && digit(s[j])
        invariant
            i <= j <= s@.len(),
            all_digits(s@, i as int, j - i),
            digit_run_len(s@, i as int) == (j - i) + digit_run_len(s@, j as int),
        decreases s@.len() - j,
    {
        j += 1;
    }
    j - i
}

/// Reads the value of the digit run `s[i..i+n]` into a machine word.
pub fn digits_to_u64(s: &Vec<char>, i: usize, n: usize) -> (v: u64)
    requires
        i + n <= s@.len(),
        all_digits(s@, i as int, n as int),
        n <= 18,
    ensures
        v == digits_val(s@, i as int, n as int),
        v < pow10(n as nat),
{
    proof {
        lemma_pow10_values();
        assert(pow10(17) * 10 == pow10(18));
    }
    let slen = s.len();
    let mut v: u64 = 0;
    let mut j: usize = 0;
    while j < n
        invariant
            0 <= j <= n,
            n <= 18,
            i + n <= slen,
            slen == s@.len(),
            all_digits(s@, i as int, n as int),
            v == digits_val(s@, i as int, j as int),
            pow10(17) * 10 == pow10(18),
            pow10(18) == 1000000000000000000,
        decreases n - j,
    {
        proof {
            lemma_digits_val_bound(s@, i as int, j as int);
            lemma_pow10_mono(j as nat, 17);
            assert(is_digit(s@[i + j]));
        }
        let c = s[i + j];
        let d = (c as u32 - 48) as u64;
        v = v * 10 + d;
        j += 1;
    }
    proof {
        lemma_digits_val_bound(s@, i as int, n as int);
    }
    v
}

} // verus!
