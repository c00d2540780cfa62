//! The price normalizer: parses a price text into an exact cents-based
//! value, resolving per-kilogram prices through a weight factor parsed out of
//! the item name.
//!
//! Two price shapes are recognized, searched left to right in the text: a
//! per-kilogram price `$<amount>.<2 digits>/Kg` and a unit price
//! `$<amount>.<2 digits>`; the per-kilogram shape is tried first.  For a
//! per-kilogram price the item name must have the shape
//! `<item> <package-weight> - <factor-weight>` with the factor weight ending
//! in `kg` (kilograms) or `g` (grams, divided by a thousand); the rightmost
//! such split is taken, and the factor is a plain decimal number.  The final
//! value is `floor(cents * factor)` cents, split into whole units and
//! sub-units truncated toward zero.
//!
//! Machine bounds, stated exactly in the contracts: a recognized amount has
//! at most sixteen digits, a factor at most eighteen digits in all with at
//! most fifteen after the point, and a result whose whole-unit part cannot
//! be represented in a 64-bit word is reported as a malformed price.

use vstd::prelude::*;

use crate::digits::{
    all_digits, digit, digit_run_len, digit_val, digits_to_u64, digits_val, dot_from, find_dot,
    is_digit, lemma_pow10_add, lemma_pow10_mono, lemma_pow10_values, pow10, pow10_u64,
    scan_digit_run,
};
use crate::errors::{ErrorModel, ExtractError};
use crate::text::copy_range;

verus! {

/// An exact monetary value: whole units and sub-units, the sub-units below
/// one hundred.
#[derive(Clone, Copy, PartialEq, Eq, Structural, Debug)]
pub struct Price(pub u64, pub u64);

impl Price {
    /// The sub-unit part is a valid cent count.
    pub open spec fn wf(&self) -> bool {
        self.1 < 100
    }

    /// The value as a pair of mathematical integers.
    pub open spec fn model(&self) -> (int, int) {
        (self.0 as int, self.1 as int)
    }
}

/// A unit price `$<amount>.<2 digits>` matches at position `i`, its amount
/// within the sixteen-digit machine bound.
pub open spec fn unit_match_at(s: Seq<char>, i: int) -> bool {
    0 <= i < s.len() && s[i] == '$' && {
        let n = digit_run_len(s, i + 1);
        1 <= n <= 16 && i + n + 4 <= s.len() && s[i + 1 + n] == '.' && is_digit(s[i + n + 2])
            && is_digit(s[i + n + 3])
    }
}

/// A per-kilogram price `$<amount>.<2 digits>/Kg` matches at position `i`.
pub open spec fn perkg_match_at(s: Seq<char>, i: int) -> bool {
    unit_match_at(s, i) && {
        let n = digit_run_len(s, i + 1);
        i + n + 7 <= s.len() && s[i + n + 4] == '/' && s[i + n + 5] == 'K' && s[i + n + 6] == 'g'
    }
}

/// The position of the leftmost price match at or after `p`.
pub open spec fn find_price_from(s: Seq<char>, p: int, perkg: bool) -> Option<int>
    decreases s.len() - p when 0 <= p <= s.len()
{
    if p >= s.len() {
        None
    } else if (if perkg {
        perkg_match_at(s, p)
    } else {
        unit_match_at(s, p)
    }) {
        Some(p)
    } else {
        find_price_from(s, p + 1, perkg)
    }
}

/// The cent value of the amount matched at position `i`: the amount's digits
/// with the decimal point removed.
pub open spec fn cents_at(s: Seq<char>, i: int) -> int {
    let n = digit_run_len(s, i + 1);
    digits_val(s, i + 1, n) * 100 + digit_val(s[i + n + 2]) * 10 + digit_val(s[i + n + 3])
}

/// The recognized price of a text: its cent value and whether it is quoted
/// per kilogram.  The per-kilogram shape is recognized first.
pub open spec fn spec_price_cents(s: Seq<char>) -> Option<(int, bool)> {
    match find_price_from(s, 0, true) {
        Some(i) => Some((cents_at(s, i), true)),
        None => match find_price_from(s, 0, false) {
            Some(i) => Some((cents_at(s, i), false)),
            None => None,
        },
    }
}

/// A ` - ` separator occurs at position `j`.
pub open spec fn sep_at(s: Seq<char>, j: int) -> bool {
    0 <= j && j + 3 <= s.len() && s[j] == ' ' && s[j + 1] == '-' && s[j + 2] == ' '
}

/// The length of the maximal run of non-space characters starting at `i`.
pub open spec fn nonspace_run_len(s: Seq<char>, i: int) -> int
    decreases s.len() - i when 0 <= i <= s.len()
{
    if i < s.len() && s[i] != ' ' {
        1 + nonspace_run_len(s, i + 1)
    } else {
        0
    }
}

/// The position of the last `g` of `s[i..p]`, searching down from `p`.
pub open spec fn last_g_before(s: Seq<char>, i: int, p: int) -> Option<int>
    decreases p - i when i <= p
{
    if p <= i {
        None
    } else if s[p - 1] == 'g' {
        Some(p - 1)
    } else {
        last_g_before(s, i, p - 1)
    }
}

/// The position of the last space of `s[0..p]`, searching down from `p`.
pub open spec fn last_space_before(s: Seq<char>, p: int) -> Option<int>
    decreases p when 0 <= p
{
    if p <= 0 {
        None
    } else if s[p - 1] == ' ' {
        Some(p - 1)
    } else {
        last_space_before(s, p - 1)
    }
}

/// The factor text is a plain decimal number within the machine bounds:
/// at most eighteen digits in all, at most fifteen after the point.
pub open spec fn factor_decimal_ok(t: Seq<char>) -> bool {
    match dot_from(t, 0) {
        None => 1 <= t.len() <= 18 && all_digits(t, 0, t.len() as int),
        Some(k) => all_digits(t, 0, k) && all_digits(t, k + 1, t.len() - (k + 1)) && (k >= 1
            || t.len() - (k + 1) >= 1) && k + (t.len() - (k + 1)) <= 18 && t.len() - (k + 1)
            <= 15,
    }
}

/// The numerator of a plain decimal text: its digits with the point removed.
pub open spec fn factor_num(t: Seq<char>) -> int {
    match dot_from(t, 0) {
        None => digits_val(t, 0, t.len() as int),
        Some(k) => digits_val(t, 0, k) * pow10((t.len() - (k + 1)) as nat) + digits_val(
            t,
            k + 1,
            t.len() - (k + 1),
        ),
    }
}

/// The denominator of a plain decimal text: ten to the number of fractional
/// digits.
pub open spec fn factor_den(t: Seq<char>) -> int {
    match dot_from(t, 0) {
        None => 1,
        Some(k) => pow10((t.len() - (k + 1)) as nat),
    }
}

/// The weight factor read at separator position `j` of the name, as a
/// fraction of kilograms: the factor token is the longest prefix of the
/// non-space run after the separator that ends in `g`; a `kg` suffix reads
/// the number directly, a bare `g` suffix divides it by a thousand.
pub open spec fn factor_at_sep(s: Seq<char>, j: int) -> Option<(int, int)> {
    let i = j + 3;
    let m = nonspace_run_len(s, i);
    match last_g_before(s, i, i + m) {
        None => None,
        Some(e) => {
            let kg = e - 1 >= i && s[e - 1] == 'k';
            let t = if kg {
                s.subrange(i, e - 1)
            } else {
                s.subrange(i, e)
            };
            if factor_decimal_ok(t) {
                if kg {
                    Some((factor_num(t), factor_den(t)))
                } else {
                    Some((factor_num(t), factor_den(t) * 1000))
                }
            } else {
                None
            }
        },
    }
}

/// The package token and item name before separator position `j` are well
/// formed: a non-empty item, a space, and a non-empty package token ending
/// in `g`.
pub open spec fn package_ok(s: Seq<char>, j: int) -> bool {
    match last_space_before(s, j) {
        None => false,
        Some(q) => q >= 1 && q + 1 < j && s[j - 1] == 'g',
    }
}

/// Separator position `j` splits the name into a valid meat pattern.
pub open spec fn meat_sep_ok(s: Seq<char>, j: int) -> bool {
    sep_at(s, j) && package_ok(s, j) && factor_at_sep(s, j) is Some
}

/// The rightmost valid meat separator below position `p`.
pub open spec fn find_meat_sep(s: Seq<char>, p: int) -> Option<int>
    decreases p when 0 <= p
{
    if p <= 0 {
        None
    } else if meat_sep_ok(s, p - 1) {
        Some(p - 1)
    } else {
        find_meat_sep(s, p - 1)
    }
}

/// The weight factor of an item name, as a fraction of kilograms, taken at
/// the rightmost valid meat separator.
pub open spec fn spec_meat_factor(s: Seq<char>) -> Option<(int, int)> {
    match find_meat_sep(s, s.len() as int) {
        None => None,
        Some(j) => factor_at_sep(s, j),
    }
}

/// The final price of a cent value scaled by a factor: total cents truncated
/// toward zero, split into whole units and sub-units.  A whole-unit count
/// beyond the 64-bit machine word is reported as a malformed price.
pub open spec fn spec_scaled_price(
    price: Seq<char>,
    cents: int,
    num: int,
    den: int,
) -> Result<(int, int), ErrorModel> {
    let total = (cents * num) / den;
    if total / 100 <= u64::MAX {
        Ok((total / 100, total % 100))
    } else {
        Err(ErrorModel::BadPrice(price))
    }
}

/// The normalized price of an item: the recognized price shape, the weight
/// factor where the price is per kilogram, and the truncated cents split.
pub open spec fn spec_normalised(name: Seq<char>, price: Seq<char>) -> Result<
    (int, int),
    ErrorModel,
> {
    match spec_price_cents(price) {
        None => Err(ErrorModel::BadPrice(price)),
        Some((cents, false)) => spec_scaled_price(price, cents, 1, 1),
        Some((cents, true)) => match spec_meat_factor(name) {
            None => Err(ErrorModel::PerKgNameMismatch(name)),
            Some((num, den)) => spec_scaled_price(price, cents, num, den),
        },
    }
}

/// A price shape matches at position `i`.
fn price_match(s: &Vec<char>, i: usize, perkg: bool) -> (r: bool)
    requires
        i < s@.len(),
    ensures
        r == if perkg {
            perkg_match_at(s@, i as int)
        } else {
            unit_match_at(s@, i as int)
        },
{
    if s[i] != '$' {
        return false;
    }
    let slen = s.len();
    let n = scan_digit_run(s, i + 1);
    if n < 1 || n > 16 {
        return false;
    }
    if slen - (i + 1 + n) < 3 {
        return false;
    }
    if s[i + 1 + n] != '.' || !digit(s[i + n + 2]) || !digit(s[i + n + 3]) {
        return false;
    }
    if !perkg {
        return true;
    }
    if slen - (i + n + 4) < 3 {
        return false;
    }
    s[i + n + 4] == '/' && s[i + n + 5] == 'K' && s[i + n + 6] == 'g'
}

/// The position of the leftmost price match of the given shape.
fn find_price(s: &Vec<char>, perkg: bool) -> (r: Option<usize>)
    ensures
        match r {
            Some(i) => find_price_from(s@, 0, perkg) == Some(i as int) && i < s@.len() && (if perkg {
                perkg_match_at(s@, i as int)
            } else {
                unit_match_at(s@, i as int)
            }),
            None => find_price_from(s@, 0, perkg) is None,
        },
{
    let mut p: usize = 0;
    while p < s.len()
        invariant
            0 <= p <= s@.len(),
            find_price_from(s@, 0, perkg) == find_price_from(s@, p as int, perkg),
        decreases s@.len() - p,
    {
        if price_match(s, p, perkg) {
            return Some(p);
        }
        p += 1;
    }
    None
}

/// The cent value of the amount matched at position `i`.
fn cents_of_match(s: &Vec<char>, i: usize) -> (c: u64)
    requires
        unit_match_at(s@, i as int),
    ensures
        c == cents_at(s@, i as int),
        c < pow10(18),
{
    proof {
        lemma_pow10_values();
    }
    let slen = s.len();
    assert(i < slen);
    let n = scan_digit_run(s, i + 1);
    let v = digits_to_u64(s, i + 1, n);
    proof {
        lemma_pow10_mono(n as nat, 16);
        assert(is_digit(s@[i + n + 2]));
        assert(is_digit(s@[i + n + 3]));
    }
    let d1 = (s[i + n + 2] as u32 - 48) as u64;
    let d2 = (s[i + n + 3] as u32 - 48) as u64;
    v * 100 + d1 * 10 + d2
}

/// The length of the maximal run of non-space characters from `i`.
fn nonspace_run(s: &Vec<char>, i: usize) -> (m: usize)
    requires
        i <= s@.len(),
    ensures
        m == nonspace_run_len(s@, i as int),
        i + m <= s@.len(),
{
    let mut j = i;
    while j < s.len() && s[j] != ' '
        invariant
            i <= j <= s@.len(),
            nonspace_run_len(s@, i as int) == (j - i) + nonspace_run_len(s@, j as int),
        decreases s@.len() - j,
    {
        j += 1;
    }
    j - i
}

/// The position of the last `g` of `s[i..p]`.
fn last_g(s: &Vec<char>, i: usize, p: usize) -> (r: Option<usize>)
    requires
        i <= p <= s@.len(),
    ensures
        match r {
            Some(e) => last_g_before(s@, i as int, p as int) == Some(e as int) && i <= e < p,
            None => last_g_before(s@, i as int, p as int) is None,
        },
{
    let mut q = p;
    while q > i
        invariant
            i <= q <= p <= s@.len(),
            last_g_before(s@, i as int, p as int) == last_g_before(s@, i as int, q as int),
        decreases q,
    {
        if s[q - 1] == 'g' {
            return Some(q - 1);
        }
        q -= 1;
    }
    None
}

/// The position of the last space of `s[0..p]`.
fn last_space(s: &Vec<char>, p: usize) -> (r: Option<usize>)
    requires
        p <= s@.len(),
    ensures
        match r {
            Some(q) => last_space_before(s@, p as int) == Some(q as int) && q < p,
            None => last_space_before(s@, p as int) is None,
        },
{
    let mut v = p;
    while v > 0
        invariant
            0 <= v <= p <= s@.len(),
            last_space_before(s@, p as int) == last_space_before(s@, v as int),
        decreases v,
    {
        if s[v - 1] == ' ' {
            return Some(v - 1);
        }
        v -= 1;
    }
    None
}

/// Parses a factor text as a plain decimal fraction within the machine
/// bounds.
fn parse_factor_decimal(t: &Vec<char>) -> (r: Option<(u64, u64)>)
    ensures
        match r {
            Some(f) => factor_decimal_ok(t@) && f.0 == factor_num(t@) && f.1 == factor_den(t@)
                && f.0 < pow10(18) && 1 <= f.1 <= pow10(15),
            None => !factor_decimal_ok(t@),
        },
{
    proof {
        lemma_pow10_values();
    }
    match find_dot(t) {
        None => {
            let n = t.len();
            if n < 1 || n > 18 {
                return None;
            }
            if scan_digit_run(t, 0) != n {
                return None;
            }
            let v = digits_to_u64(t, 0, n);
            proof {
                lemma_pow10_mono(n as nat, 18);
            }
            Some((v, 1))
        },
        Some(k) => {
            let fl = t.len() - (k + 1);
            if scan_digit_run(t, 0) != k {
                assert(!all_digits(t@, 0, k as int));
                return None;
            }
            if scan_digit_run(t, k + 1) != fl {
                assert(!all_digits(t@, k + 1, fl as int));
                return None;
            }
            if k == 0 && fl == 0 {
                return None;
            }
            if k + fl > 18 || fl > 15 {
                return None;
            }
            let ip = digits_to_u64(t, 0, k);
            let fv = digits_to_u64(t, k + 1, fl);
            let den = pow10_u64(fl);
            proof {
                lemma_pow10_add(k as nat, fl as nat);
                lemma_pow10_mono((k + fl) as nat, 18);
                lemma_pow10_mono(fl as nat, 15);
                lemma_pow10_mono(0, fl as nat);
                assert(ip * den + fv < pow10((k + fl) as nat)) by (nonlinear_arith)
                    requires
                        ip < pow10(k as nat),
                        fv < pow10(fl as nat),
                        den == pow10(fl as nat),
                        den >= 1,
                        pow10((k + fl) as nat) == pow10(k as nat) * pow10(fl as nat),
                ;
            }
            let num = ip * den + fv;
            Some((num, den))
        },
    }
}

/// The weight factor read at separator position `j` of the name.
fn factor_at(s: &Vec<char>, j: usize) -> (r: Option<(u64, u64)>)
    requires
        sep_at(s@, j as int),
    ensures
        match r {
            Some(f) => factor_at_sep(s@, j as int) == Some((f.0 as int, f.1 as int)) && f.0
                < pow10(18) && 1 <= f.1 <= pow10(18),
            None => factor_at_sep(s@, j as int) is None,
        },
{
    proof {
        lemma_pow10_values();
    }
    let slen = s.len();
    assert(j + 3 <= slen);
    let i = j + 3;
    let m = nonspace_run(s, i);
    match last_g(s, i, i + m) {
        None => None,
        Some(e) => {
            let kg = e > i && s[e - 1] == 'k';
            let t = if kg {
                copy_range(s, i, e - 1)
            } else {
                copy_range(s, i, e)
            };
            match parse_factor_decimal(&t) {
                None => None,
                Some((num, den)) => {
                    proof {
                        lemma_pow10_mono(15, 18);
                    }
                    if kg {
                        Some((num, den))
                    } else {
                        Some((num, den * 1000))
                    }
                },
            }
        },
    }
}

/// The package token and item name before separator position `j` are well
/// formed.
fn package_check(s: &Vec<char>, j: usize) -> (r: bool)
    requires
        j <= s@.len(),
    ensures
        r == package_ok(s@, j as int),
{
    match last_space(s, j) {
        None => false,
        Some(q) => q >= 1 && q + 1 < j && s[j - 1] == 'g',
    }
}

/// The ` - ` separator characters occur at position `j`.
fn sep_check(s: &Vec<char>, j: usize) -> (r: bool)
    requires
        j < s@.len(),
    ensures
        r == sep_at(s@, j as int),
{
    let slen = s.len();
    if slen - j < 3 {
        return false;
    }
    s[j] == ' ' && s[j + 1] == '-' && s[j + 2] == ' '
}

/// The weight factor of an item name, at the rightmost valid meat separator.
fn meat_factor(s: &Vec<char>) -> (r: Option<(u64, u64)>)
    ensures
        match r {
            Some(f) => spec_meat_factor(s@) == Some((f.0 as int, f.1 as int)) && f.0 < pow10(18)
                && 1 <= f.1 <= pow10(18),
            None => spec_meat_factor(s@) is None,
        },
{
    let mut p = s.len();
    while p > 0
        invariant
            0 <= p <= s@.len(),
            find_meat_sep(s@, s@.len() as int) == find_meat_sep(s@, p as int),
        decreases p,
    {
        let j = p - 1;
        if sep_check(s, j) && package_check(s, j) {
            match factor_at(s, j) {
                Some(f) => {
                    assert(meat_sep_ok(s@, j as int));
                    return Some(f);
                },
                None => {
                    assert(!meat_sep_ok(s@, j as int));
                },
            }
        }
        p -= 1;
    }
    None
}

/// Splits scaled total cents into a price, or reports an unrepresentable
/// whole-unit count as a malformed price.
fn scaled_price(price: &Vec<char>, cents: u64, num: u64, den: u64) -> (r: Result<
    Price,
    ExtractError,
>)
    requires
        cents < pow10(18),
        num < pow10(18),
        1 <= den,
    ensures
        match r {
            Ok(p) => spec_scaled_price(price@, cents as int, num as int, den as int) == Ok::<
                _,
                ErrorModel,
            >(p.model()) && p.wf(),
            Err(e) => spec_scaled_price(price@, cents as int, num as int, den as int) == Err::<
                (int, int),
                _,
            >(e@),
        },
{
    proof {
        lemma_pow10_values();
        lemma_pow10_add(18, 18);
        assert((cents as int) * (num as int) < pow10(36)) by (nonlinear_arith)
            requires
                0 <= cents as int,
                0 <= num as int,
                (cents as int) < pow10(18),
                (num as int) < pow10(18),
                pow10(36) == pow10(18) * pow10(18),
        ;
        assert(pow10(36) == 1000000000000000000 * 1000000000000000000);
    }
    let total = (cents as u128 * num as u128) / (den as u128);
    let whole = total / 100;
    if whole > u64::MAX as u128 {
        let txt = copy_range(price, 0, price.len());
        proof {
            assert(txt@ =~= price@);
        }
        Err(ExtractError::BadPrice(txt))
    } else {
        let sub = total % 100;
        Ok(Price(whole as u64, sub as u64))
    }
}

impl Price {
    /// Normalizes an item's price text against its name, producing the exact
    /// cents-based value that the recognized price shape and the name's
    /// weight factor determine.
    pub fn normalised(name: &Vec<char>, price: &Vec<char>) -> (r: Result<Price, ExtractError>)
        ensures
            match r {
                Ok(p) => spec_normalised(name@, price@) == Ok::<_, ErrorModel>(p.model())
                    && p.wf(),
                Err(e) => spec_normalised(name@, price@) == Err::<(int, int), _>(e@),
            },
    {
        let (i, perkg) = match find_price(price, true) {
            Some(i) => (i, true),
            None => match find_price(price, false) {
                Some(i) => (i, false),
                None => {
                    let txt = copy_range(price, 0, price.len());
                    proof {
                        assert(txt@ =~= price@);
                    }
                    return Err(ExtractError::BadPrice(txt));
                },
            },
        };
        proof {
            if perkg {
                assert(unit_match_at(price@, i as int));
            }
        }
        let cents = cents_of_match(price, i);
        if !perkg {
            proof {
                lemma_pow10_values();
            }
            scaled_price(price, cents, 1, 1)
        } else {
            match meat_factor(name) {
                None => {
                    let txt = copy_range(name, 0, name.len());
                    proof {
                        assert(txt@ =~= name@);
                    }
                    Err(ExtractError::PerKgNameMismatch(txt))
                },
                Some((num, den)) => scaled_price(price, cents, num, den),
            }
        }
    }
}

} // verus!
