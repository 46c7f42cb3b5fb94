//! Numbers read from text, and cycling through a range.

use vstd::prelude::*;

use crate::format::{decimal, digit_char};
use crate::text::chars_of;

verus! {

/// Whether a character is a decimal digit.
pub open spec fn is_digit(c: char) -> bool {
    '0' <= c <= '9'
}

/// The number that the first `n` characters spell, all of them digits.
pub open spec fn digits_value(s: Seq<char>, n: int) -> int
    decreases n,
{
    if n <= 0 {
        0
    } else {
        digits_value(s, n - 1) * 10 + (s[n - 1] as int - '0' as int)
    }
}

/// Whether a text is made of digits, at least one.
pub open spec fn all_digits(s: Seq<char>) -> bool {
    s.len() > 0 && forall|k: int| 0 <= k < s.len() ==> is_digit(#[trigger] s[k])
}

/// The number that a text is: digits, with a plus sign in front or not, no greater than `max`.
pub open spec fn parsed(s: Seq<char>, max: int) -> Option<int> {
    let d = if s.len() > 0 && s[0] == '+' {
        s.skip(1)
    } else {
        s
    };
    if all_digits(d) && digits_value(d, d.len() as int) <= max {
        Some(digits_value(d, d.len() as int))
    } else {
        None
    }
}

pub proof fn lemma_digits_grow(s: Seq<char>, i: int, n: int)
    requires
        0 <= i <= n <= s.len(),
        forall|k: int| 0 <= k < n ==> is_digit(#[trigger] s[k]),
    ensures
        0 <= digits_value(s, i) <= digits_value(s, n),
    decreases n,
{
    if n > 0 {
        if i < n {
            lemma_digits_grow(s, i, n - 1);
        } else {
            lemma_digits_grow(s, n - 1, n - 1);
        }
        assert(is_digit(s[n - 1]));
    }
}

/// The value of a digit.
pub fn digit_value(c: char) -> (r: u64)
    requires
        is_digit(c),
    ensures
        r == c as int - '0' as int,
        r < 10,
{
    c as u64 - '0' as u64
}

/// The number that a text is, no greater than `max`.
pub fn parse_within(s: &str, max: u64) -> (r: Option<u64>)
    ensures
        match r {
            Some(n) => parsed(s@, max as int) == Some(n as int),
            None => parsed(s@, max as int) is None,
        },
{
    let cs: Vec<char> = chars_of(s);
    let from: usize = if cs.len() > 0 && cs[0] == '+' {
        1
    } else {
        0
    };
    let ghost d = if s@.len() > 0 && s@[0] == '+' {
        s@.skip(1)
    } else {
        s@
    };
    if from >= cs.len() {
        return None;
    }
    let mut n: u64 = 0;
    let mut i: usize = from;
    while i < cs.len()
        invariant
            from <= i <= cs.len(),
            from < cs.len(),
            cs@ == s@,
            from <= 1,
            d.len() == cs@.len() - from,
            forall|k: int| 0 <= k < d.len() ==> #[trigger] d[k] == cs@[k + from],
            d == if s@.len() > 0 && s@[0] == '+' {
                s@.skip(1)
            } else {
                s@
            },
            forall|k: int| 0 <= k < i - from ==> is_digit(#[trigger] d[k]),
            n == digits_value(d, i - from),
            n <= max,
        decreases cs.len() - i,
    {
        let c: char = cs[i];
        assert(d[i - from] == c);
        if !('0' <= c && c <= '9') {
            return None;
        }
        let v: u64 = digit_value(c);
        if n > max / 10 || v > max - n * 10 {
            proof {
                assert(digits_value(d, i + 1 - from) > max);
                if all_digits(d) {
                    lemma_digits_grow(d, i + 1 - from, d.len() as int);
                }
            }
            return None;
        }
        n = n * 10 + v;
        i += 1;
    }
    Some(n)
}

/// The number that a text is, where it is a `usize`.
pub fn parse_usize(s: &str) -> (r: Option<usize>)
    ensures
        match r {
            Some(n) => parsed(s@, usize::MAX as int) == Some(n as int),
            None => parsed(s@, usize::MAX as int) is None,
        },
{
    match parse_within(s, usize::MAX as u64) {
        Some(n) => Some(n as usize),
        None => None,
    }
}

/// A number that a text is, is between zero and the greatest.
pub proof fn lemma_parsed(s: Seq<char>, max: int)
    ensures
        parsed(s, max) matches Some(n) ==> 0 <= n <= max,
{
    let d = if s.len() > 0 && s[0] == '+' {
        s.skip(1)
    } else {
        s
    };
    if all_digits(d) {
        lemma_digits_grow(d, d.len() as int, d.len() as int);
    }
}

/// A number in decimal reads back as itself.
pub proof fn decimals_read_back(n: nat, max: int)
    requires
        n <= max,
    ensures
        parsed(decimal(n), max) == Some(n as int),
{
    lemma_decimal(n);
    let s = decimal(n);
    assert(is_digit(s[0]));
}

/// A number in decimal is made of digits that spell it.
pub proof fn lemma_decimal(n: nat)
    ensures
        all_digits(decimal(n)),
        digits_value(decimal(n), decimal(n).len() as int) == n,
    decreases n,
{
    let s = decimal(n);
    if n < 10 {
        assert(s[0] == digit_char(n));
        assert(is_digit(s[0]));
        assert(digits_value(s, 1) == digits_value(s, 0) * 10 + (s[0] as int - '0' as int));
    } else {
        lemma_decimal(n / 10);
        let t = decimal(n / 10);
        assert(s == t.push(digit_char(n % 10)));
        lemma_digits_prefix(t, s, t.len() as int);
        assert(is_digit(s[s.len() - 1]));
        assert forall|k: int| 0 <= k < s.len() implies is_digit(#[trigger] s[k]) by {
            if k < t.len() {
                assert(s[k] == t[k]);
            }
        }
    }
}

proof fn lemma_digits_prefix(a: Seq<char>, b: Seq<char>, n: int)
    requires
        0 <= n <= a.len() <= b.len(),
        forall|k: int| 0 <= k < n ==> a[k] == b[k],
    ensures
        digits_value(a, n) == digits_value(b, n),
    decreases n,
{
    if n > 0 {
        lemma_digits_prefix(a, b, n - 1);
    }
}

/// Where a step from a place in a range of `n` leads, going round at the ends.
pub fn wrapped(at: usize, delta: isize, n: usize) -> (r: usize)
    requires
        0 < n,
    ensures
        r == (at + delta) % (n as int),
        r < n,
{
    let step: usize = if delta >= 0 {
        (delta as usize) % n
    } else {
        n - 1 - ((-(delta + 1)) as usize) % n
    };
    let a: usize = at % n;
    let r: usize = if step >= n - a {
        step - (n - a)
    } else {
        a + step
    };
    proof {
        let m = n as int;
        let d = delta as int;
        if d < 0 {
            let q = (-(d + 1)) / m;
            let e = (-(d + 1)) % m;
            vstd::arithmetic::div_mod::lemma_fundamental_div_mod(-(d + 1), m);
            assert(d == -(m * q + e) - 1);
            assert(step == m - 1 - e);
            assert(d == m * (-q - 1) + step) by (nonlinear_arith)
                requires
                    d == -(m * q + e) - 1,
                    step == m - 1 - e,
            ;
            vstd::arithmetic::div_mod::lemma_fundamental_div_mod_converse(
                d,
                m,
                -q - 1,
                step as int,
            );
        }
        assert(step == d % m);
        vstd::arithmetic::div_mod::lemma_add_mod_noop(at as int, d, m);
        let sum = a + step;
        if sum >= m {
            vstd::arithmetic::div_mod::lemma_fundamental_div_mod_converse(sum, m, 1, r as int);
        } else {
            vstd::arithmetic::div_mod::lemma_small_mod(sum as nat, n as nat);
        }
    }
    r
}

} // verus!
