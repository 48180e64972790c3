//! Numerals and a little arithmetic.

use vstd::prelude::*;

use crate::expression::MatchMap;
use crate::expression::match_map::agree;
use crate::text::chars_of;
use crate::text::digit_value;
use crate::text::digits_value;
use crate::text::lemma_digits_prefix;
use crate::text::lemma_digits_prefix_none;

verus! {

/// Whether `c` is a decimal digit.
pub open spec fn is_digit(c: char) -> bool {
    digit_value(c) is Some
}

/// Where the run of digits that starts at `from` ends.
pub open spec fn digits_end(s: Seq<char>, from: int) -> int
    decreases s.len() - from,
{
    if 0 <= from < s.len() && is_digit(s[from]) {
        digits_end(s, from + 1)
    } else {
        from
    }
}

/// Whether `s` is `word`, in any mix of the two cases `lower` and `upper`.
pub open spec fn is_word(s: Seq<char>, lower: Seq<char>, upper: Seq<char>) -> bool {
    s.len() == lower.len() && forall|i: int| 0 <= i < s.len() ==> (#[trigger] s[i] == lower[i] || s[i] == upper[i])
}

/// Whether `s` is one of the names of a value that is no number: `inf`,
/// `infinity` or `nan`, in any case.
pub open spec fn is_special_numeral(s: Seq<char>) -> bool {
    is_word(s, seq!['i', 'n', 'f'], seq!['I', 'N', 'F']) || is_word(
        s,
        seq!['i', 'n', 'f', 'i', 'n', 'i', 't', 'y'],
        seq!['I', 'N', 'F', 'I', 'N', 'I', 'T', 'Y'],
    ) || is_word(s, seq!['n', 'a', 'n'], seq!['N', 'A', 'N'])
}

/// Whether `s`, from `from` on, is an exponent: `e` or `E`, an optional
/// sign, and at least one digit up to the end.
pub open spec fn is_exponent(s: Seq<char>, from: int) -> bool {
    &&& 0 <= from < s.len()
    &&& (s[from] == 'e' || s[from] == 'E')
    &&& {
        let start = if from + 1 < s.len() && (s[from + 1] == '+' || s[from + 1] == '-') {
            from + 2
        } else {
            from + 1
        };
        start < s.len() && digits_end(s, start) == s.len()
    }
}

/// Whether `s`, from `from` on, is a decimal number: digits with at most one
/// point among them, at least one digit in all, and an optional exponent.
pub open spec fn is_decimal_from(s: Seq<char>, from: int) -> bool {
    let whole_end = digits_end(s, from);
    if whole_end < s.len() && s[whole_end] == '.' {
        let fraction_end = digits_end(s, whole_end + 1);
        (whole_end - from) + (fraction_end - (whole_end + 1)) >= 1 && (fraction_end == s.len() || is_exponent(
            s,
            fraction_end,
        ))
    } else {
        whole_end > from && (whole_end == s.len() || is_exponent(s, whole_end))
    }
}

/// Whether `s` is written as a floating-point number is read: an optional
/// sign, then either one of the names `inf`, `infinity`, `nan`, or a
/// decimal number with an optional exponent. Nothing may stand before or
/// after it.
pub open spec fn is_numeral(s: Seq<char>) -> bool {
    let from: int = if s.len() > 0 && (s[0] == '+' || s[0] == '-') {
        1
    } else {
        0
    };
    is_special_numeral(s.subrange(from, s.len() as int)) || is_decimal_from(s, from)
}

fn digit(c: char) -> (r: bool)
    ensures
        r == is_digit(c),
{
    c == '0' || c == '1' || c == '2' || c == '3' || c == '4' || c == '5' || c == '6' || c == '7' || c == '8'
        || c == '9'
}

fn scan_digits(s: &Vec<char>, from: usize) -> (end: usize)
    requires
        from <= s.len(),
    ensures
        end == digits_end(s@, from as int),
        from <= end <= s.len(),
{
    let mut j: usize = from;
    while j < s.len() && digit(s[j])
        invariant
            from <= j <= s.len(),
            digits_end(s@, from as int) == digits_end(s@, j as int),
        decreases s.len() - j,
    {
        j += 1;
    }
    j
}

fn word_at(s: &Vec<char>, from: usize, lower: &Vec<char>, upper: &Vec<char>) -> (r: bool)
    requires
        from <= s.len(),
        lower.len() == upper.len(),
    ensures
        r == is_word(s@.subrange(from as int, s.len() as int), lower@, upper@),
{
    let ghost rest = s@.subrange(from as int, s.len() as int);
    if s.len() - from != lower.len() {
        return false;
    }
    let mut i: usize = 0;
    while i < lower.len()
        invariant
            i <= lower.len(),
            lower.len() == upper.len(),
            from <= s.len(),
            s.len() - from == lower.len(),
            rest == s@.subrange(from as int, s.len() as int),
            forall|j: int| 0 <= j < i ==> (#[trigger] rest[j] == lower@[j] || rest[j] == upper@[j]),
        decreases lower.len() - i,
    {
        let c = s[from + i];
        assert(rest[i as int] == c);
        if c != lower[i] && c != upper[i] {
            return false;
        }
        i += 1;
    }
    true
}

fn letters(a: char, b: char, c: char) -> (v: Vec<char>)
    ensures
        v@ == seq![a, b, c],
{
    let mut v: Vec<char> = Vec::new();
    v.push(a);
    v.push(b);
    v.push(c);
    assert(v@ =~= seq![a, b, c]);
    v
}

fn special_at(s: &Vec<char>, from: usize) -> (r: bool)
    requires
        from <= s.len(),
    ensures
        r == is_special_numeral(s@.subrange(from as int, s.len() as int)),
{
    let inf_lower = letters('i', 'n', 'f');
    let inf_upper = letters('I', 'N', 'F');
    let nan_lower = letters('n', 'a', 'n');
    let nan_upper = letters('N', 'A', 'N');
    let mut infinity_lower = letters('i', 'n', 'f');
    infinity_lower.push('i');
    infinity_lower.push('n');
    infinity_lower.push('i');
    infinity_lower.push('t');
    infinity_lower.push('y');
    let mut infinity_upper = letters('I', 'N', 'F');
    infinity_upper.push('I');
    infinity_upper.push('N');
    infinity_upper.push('I');
    infinity_upper.push('T');
    infinity_upper.push('Y');
    assert(infinity_lower@ =~= seq!['i', 'n', 'f', 'i', 'n', 'i', 't', 'y']);
    assert(infinity_upper@ =~= seq!['I', 'N', 'F', 'I', 'N', 'I', 'T', 'Y']);
    word_at(s, from, &inf_lower, &inf_upper) || word_at(s, from, &infinity_lower, &infinity_upper) || word_at(
        s,
        from,
        &nan_lower,
        &nan_upper,
    )
}

fn exponent_at(s: &Vec<char>, from: usize) -> (r: bool)
    requires
        from < s.len(),
    ensures
        r == is_exponent(s@, from as int),
{
    if s[from] != 'e' && s[from] != 'E' {
        return false;
    }
    let start: usize = if from + 1 < s.len() && (s[from + 1] == '+' || s[from + 1] == '-') {
        from + 2
    } else {
        from + 1
    };
    if start >= s.len() {
        return false;
    }
    scan_digits(s, start) == s.len()
}

/// Whether the characters `s` are written as a floating-point number is
/// read.
pub fn is_number_chars(s: &Vec<char>) -> (r: bool)
    ensures
        r == is_numeral(s@),
{
    let from: usize = if s.len() > 0 && (s[0] == '+' || s[0] == '-') {
        1
    } else {
        0
    };
    if special_at(s, from) {
        return true;
    }
    let whole_end = scan_digits(s, from);
    if whole_end < s.len() && s[whole_end] == '.' {
        let fraction_end = scan_digits(s, whole_end + 1);
        if (whole_end - from) + (fraction_end - (whole_end + 1)) < 1 {
            return false;
        }
        fraction_end == s.len() || exponent_at(s, fraction_end)
    } else {
        if whole_end <= from {
            return false;
        }
        whole_end == s.len() || exponent_at(s, whole_end)
    }
}

/// Whether `s` is written as a floating-point number is read.
pub fn is_number(s: &str) -> (r: bool)
    ensures
        r == is_numeral(s@),
{
    let chars = chars_of(s);
    is_number_chars(&chars)
}

/// What a signed 64-bit integer reads from `s`: an optional sign, then
/// decimal digits whose value fits the type.
pub open spec fn parsed_i64(s: Seq<char>) -> Option<i64> {
    let negative = s.len() > 0 && s[0] == '-';
    let body = if s.len() > 0 && (s[0] == '+' || s[0] == '-') {
        s.subrange(1, s.len() as int)
    } else {
        s
    };
    fits_i64(negative, digits_value(body))
}

/// The signed value that the sign and the magnitude stand for.
pub open spec fn signed(negative: bool, v: nat) -> int {
    if negative {
        -(v as int)
    } else {
        v as int
    }
}

/// The signed value as a machine integer, where there is one and it fits.
pub open spec fn fits_i64(negative: bool, v: Option<nat>) -> Option<i64> {
    match v {
        None => None,
        Some(v) => if i64::MIN <= signed(negative, v) <= i64::MAX {
            Some(signed(negative, v) as i64)
        } else {
            None
        },
    }
}

/// Reads a signed 64-bit integer from the characters `s`.
pub fn parse_i64_chars(s: &Vec<char>) -> (r: Option<i64>)
    ensures
        r == parsed_i64(s@),
{
    let negative = s.len() > 0 && s[0] == '-';
    let start: usize = if s.len() > 0 && (s[0] == '+' || s[0] == '-') {
        1
    } else {
        0
    };
    let ghost body = s@.subrange(start as int, s.len() as int);
    proof {
        if start == 0 {
            assert(body =~= s@);
        }
        assert(parsed_i64(s@) == fits_i64(negative, digits_value(body)));
    }
    if start >= s.len() {
        assert(body.len() == 0);
        return None;
    }
    let mut acc: i64 = 0;
    let mut i: usize = start;
    while i < s.len()
        invariant
            start <= i <= s.len(),
            start < s.len(),
            body == s@.subrange(start as int, s.len() as int),
            parsed_i64(s@) == fits_i64(negative, digits_value(body)),
            i > start ==> digits_value(body.subrange(0, i - start)) is Some && acc as int == signed(
                negative,
                digits_value(body.subrange(0, i - start))->0,
            ),
            i == start ==> acc == 0,
        decreases s.len() - i,
    {
        let ghost k = i - start + 1;
        let ghost prefix = body.subrange(0, k);
        proof {
            assert(prefix.last() == s@[i as int]);
            if i > start {
                assert(prefix.drop_last() =~= body.subrange(0, i - start));
            }
        }
        let d: i64 = if s[i] == '0' {
            0
        } else if s[i] == '1' {
            1
        } else if s[i] == '2' {
            2
        } else if s[i] == '3' {
            3
        } else if s[i] == '4' {
            4
        } else if s[i] == '5' {
            5
        } else if s[i] == '6' {
            6
        } else if s[i] == '7' {
            7
        } else if s[i] == '8' {
            8
        } else if s[i] == '9' {
            9
        } else {
            proof {
                lemma_digits_prefix_none(body, k);
            }
            return None;
        };
        assert(digit_value(s@[i as int]) == Some(d as nat));
        let shifted = acc.checked_mul(10);
        let next = match shifted {
            None => None,
            Some(x) => if negative {
                x.checked_sub(d)
            } else {
                x.checked_add(d)
            },
        };
        match next {
            None => {
                proof {
                    if digits_value(body) is Some {
                        lemma_digits_prefix(body, k);
                    }
                }
                return None;
            },
            Some(v) => {
                acc = v;
            },
        }
        i += 1;
    }
    proof {
        assert(body.subrange(0, i - start) =~= body);
    }
    Some(acc)
}

/// Reads a signed 64-bit integer from `s`.
pub fn parse_i64(s: &str) -> (r: Option<i64>)
    ensures
        r == parsed_i64(s@),
{
    let chars = chars_of(s);
    parse_i64_chars(&chars)
}

/// The remainder of `x` divided by `d` that has the sign of `x`.
pub open spec fn remainder(x: int, d: int) -> int {
    if d == 0 {
        0
    } else if x >= 0 {
        x % (if d > 0 {
            d
        } else {
            -d
        })
    } else {
        -((-x) % (if d > 0 {
            d
        } else {
            -d
        }))
    }
}

/// The absolute value.
pub open spec fn magnitude(x: int) -> int {
    if x < 0 {
        -x
    } else {
        x
    }
}

/// What Euclid's algorithm makes of `a` and `b` when every remainder takes
/// the sign of its dividend: `a` where `b` is zero, else the result for `b`
/// and the remainder of `a` by `b`.
pub open spec fn euclid(a: int, b: int) -> int
    decreases magnitude(b),
{
    if b == 0 {
        a
    } else {
        euclid(b, remainder(a, b))
    }
}

/// Whether `d` divides `x`.
pub open spec fn divides(d: int, x: int) -> bool {
    exists|k: int| x == #[trigger] (k * d)
}

/// The remainder differs from the dividend by a multiple of the divisor.
pub proof fn lemma_remainder(x: int, d: int)
    requires
        d != 0,
    ensures
        exists|t: int| remainder(x, d) == x - #[trigger] (t * d),
        magnitude(remainder(x, d)) < magnitude(d),
{
    let m = magnitude(d);
    if x >= 0 {
        vstd::arithmetic::div_mod::lemma_fundamental_div_mod(x, m);
        vstd::arithmetic::div_mod::lemma_mod_bound(x, m);
        let q = x / m;
        let t = if d > 0 {
            q
        } else {
            -q
        };
        assert(t * d == m * q) by (nonlinear_arith)
            requires
                m == magnitude(d),
                t == (if d > 0 {
                    q
                } else {
                    -q
                }),
        ;
        assert(remainder(x, d) == x - t * d);
    } else {
        vstd::arithmetic::div_mod::lemma_fundamental_div_mod(-x, m);
        vstd::arithmetic::div_mod::lemma_mod_bound(-x, m);
        let q = (-x) / m;
        let t = if d > 0 {
            -q
        } else {
            q
        };
        assert(t * d == -(m * q)) by (nonlinear_arith)
            requires
                m == magnitude(d),
                t == (if d > 0 {
                    -q
                } else {
                    q
                }),
        ;
        assert(remainder(x, d) == x - t * d);
    }
}

/// A number divides two numbers if and only if it divides the second and
/// the remainder of the first by the second.
pub proof fn lemma_divides_remainder(d: int, a: int, b: int)
    requires
        b != 0,
    ensures
        (divides(d, a) && divides(d, b)) <==> (divides(d, b) && divides(d, remainder(a, b))),
{
    lemma_remainder(a, b);
    let t = choose|t: int| remainder(a, b) == a - #[trigger] (t * b);
    let r = remainder(a, b);
    if divides(d, b) {
        let kb = choose|k: int| b == #[trigger] (k * d);
        if divides(d, a) {
            let ka = choose|k: int| a == #[trigger] (k * d);
            assert(r == (ka - t * kb) * d) by (nonlinear_arith)
                requires
                    r == a - t * b,
                    a == ka * d,
                    b == kb * d,
            ;
        }
        if divides(d, r) {
            let kr = choose|k: int| r == #[trigger] (k * d);
            assert(a == (kr + t * kb) * d) by (nonlinear_arith)
                requires
                    r == a - t * b,
                    r == kr * d,
                    b == kb * d,
            ;
        }
    }
}

/// What Euclid's algorithm makes of two numbers is their greatest common
/// divisor but for its sign: a number divides both if and only if it
/// divides the result.
pub proof fn law_euclid_is_greatest_common_divisor(a: int, b: int, d: int)
    ensures
        (divides(d, a) && divides(d, b)) <==> divides(d, euclid(a, b)),
    decreases magnitude(b),
{
    if b == 0 {
        assert(0 == 0 * d);
        assert(divides(d, 0));
    } else {
        lemma_remainder(a, b);
        lemma_divides_remainder(d, a, b);
        law_euclid_is_greatest_common_divisor(b, remainder(a, b), d);
    }
}

/// The last non-zero remainder of Euclid's algorithm on `a` and `b`. Its
/// sign is that of the dividend it was the remainder of.
pub fn gcd(a: i64, b: i64) -> (r: i64)
    ensures
        r == euclid(a as int, b as int),
    decreases magnitude(b as int),
{
    if b == 0 {
        a
    } else {
        let rem = match a.checked_rem(b) {
            Some(r) => r,
            None => 0,
        };
        assert(rem as int == remainder(a as int, b as int));
        gcd(b, rem)
    }
}

/// The quotient of `x` by `d` rounded towards zero.
pub open spec fn quotient(x: int, d: int) -> int {
    if d == 0 {
        0
    } else if (x >= 0) == (d > 0) {
        magnitude(x) / magnitude(d)
    } else {
        -(magnitude(x) / magnitude(d))
    }
}

/// `a / gcd(a, b) * b`.
pub fn lcm(a: i64, b: i64) -> (r: i64)
    requires
        euclid(a as int, b as int) != 0,
        i64::MIN <= quotient(a as int, euclid(a as int, b as int)) <= i64::MAX,
        i64::MIN <= quotient(a as int, euclid(a as int, b as int)) * b <= i64::MAX,
    ensures
        r == quotient(a as int, euclid(a as int, b as int)) * b,
{
    let g = gcd(a, b);
    let q = match a.checked_div(g) {
        Some(q) => q,
        None => 0,
    };
    assert(q as int == quotient(a as int, g as int)) by (nonlinear_arith)
        requires
            g != 0,
            a.checked_div(g) == Some(q),
            a.checked_div(g) == (if g == 0 {
                None
            } else {
                let x = a as int;
                let d = g as int;
                let output = if x == 0 {
                    0
                } else if x > 0 && d > 0 {
                    x / d
                } else if x < 0 && d < 0 {
                    ((x * -1) / (d * -1))
                } else if x < 0 {
                    ((x * -1) / d) * -1
                } else {
                    (x / (d * -1)) * -1
                };
                if output < i64::MIN || output > i64::MAX {
                    None
                } else {
                    Some(output as i64)
                }
            }),
    ;
    q * b
}

/// Whether two maps agree on every key that both bind. A key that only one
/// of them binds is no clash.
pub fn is_hashmap_no_clash(map1: &MatchMap, map2: &MatchMap) -> (r: bool)
    ensures
        r == agree(map1@, map2@),
{
    let n = map1.len();
    let mut i: usize = 0;
    while i < n
        invariant
            i <= n,
            n == map1.spec_keys().len(),
            forall|k: Seq<char>| #[trigger] map1@.dom().contains(k) <==> map1.spec_keys().contains(k),
            forall|j: int|
                0 <= j < i ==> (map2@.dom().contains(#[trigger] map1.spec_keys()[j]) ==> map2@[map1.spec_keys()[j]]
                    == map1@[map1.spec_keys()[j]]),
        decreases n - i,
    {
        let key = map1.key_at(i);
        let value = map1.value_at(i);
        match map2.get(key.as_str()) {
            Some(other) => {
                if !other.equals(value) {
                    return false;
                }
            },
            None => {},
        }
        i += 1;
    }
    proof {
        assert forall|k: Seq<char>| map1@.dom().contains(k) && map2@.dom().contains(k) implies map1@[k]
            == map2@[k] by {
            let j = choose|j: int| 0 <= j < map1.spec_keys().len() && map1.spec_keys()[j] == k;
            assert(map1.spec_keys()[j] == k);
        }
    }
    true
}

} // verus!
