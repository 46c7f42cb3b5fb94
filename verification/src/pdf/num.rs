//! Decimal numbers as they stand in PDF syntax, in exact fixed point.

use vstd::prelude::*;

use crate::bytes::bytes_eq;

verus! {

/// Units per one: eighteen decimal places are kept.
pub const SCALE: i128 = 1_000_000_000_000_000_000;

/// The largest magnitude, in units. Larger values are cut down to it.
pub const LIMIT: i128 = 170_000_000_000_000_000_000_000_000_000_000_000_000;

/// Exponents are cut down to this magnitude.
pub const MAX_EXPONENT: i128 = 1_000_000_000_000_000;

/// A number: a count of units, between `-LIMIT` and `LIMIT`.
#[derive(Debug, Clone, Copy, PartialEq, Eq, Structural)]
pub struct Num {
    pub units: i128,
}

pub open spec fn is_digit(b: u8) -> bool {
    0x30 <= b <= 0x39
}

/// Where the run of digits that starts at `i` ends.
pub open spec fn digits_end(w: Seq<u8>, i: int) -> int
    decreases w.len() - i,
{
    if 0 <= i < w.len() && is_digit(w[i]) {
        digits_end(w, i + 1)
    } else {
        i
    }
}

pub proof fn lemma_digits_end(w: Seq<u8>, i: int)
    requires
        0 <= i <= w.len(),
    ensures
        i <= digits_end(w, i) <= w.len(),
        forall|k: int| i <= k < digits_end(w, i) ==> is_digit(w[k]),
        digits_end(w, i) < w.len() ==> !is_digit(w[digits_end(w, i)]),
    decreases w.len() - i,
{
    if i < w.len() && is_digit(w[i]) {
        lemma_digits_end(w, i + 1);
    }
}

/// The digit at place `k`, counted from the left; zeros follow the last one.
pub open spec fn digit_at(ds: Seq<u8>, k: int) -> int {
    if 0 <= k < ds.len() {
        ds[k] - 0x30
    } else {
        0
    }
}

/// The number that the first `m` digits make, zeros following the last one, cut down to `cap`.
pub open spec fn leading(ds: Seq<u8>, m: int, cap: int) -> int
    decreases m,
{
    if m <= 0 {
        0
    } else {
        let v = 10 * leading(ds, m - 1, cap) + digit_at(ds, m - 1);
        if v > cap {
            cap
        } else {
            v
        }
    }
}

/// `b` in lower case, for ASCII letters.
pub open spec fn lower(b: u8) -> u8 {
    if 0x41 <= b <= 0x5a {
        (b + 0x20) as u8
    } else {
        b
    }
}

pub open spec fn lowered(w: Seq<u8>) -> Seq<u8> {
    w.map_values(|b: u8| lower(b))
}

pub open spec fn word_inf() -> Seq<u8> {
    seq![0x69u8, 0x6e, 0x66]
}

pub open spec fn word_infinity() -> Seq<u8> {
    seq![0x69u8, 0x6e, 0x66, 0x69, 0x6e, 0x69, 0x74, 0x79]
}

pub open spec fn word_nan() -> Seq<u8> {
    seq![0x6eu8, 0x61, 0x6e]
}

/// Whether a sign stands at `i`.
pub open spec fn sign_at(w: Seq<u8>, i: int) -> bool {
    0 <= i < w.len() && (w[i] == 0x2b || w[i] == 0x2d)
}

/// Whether a minus sign stands at `i`.
pub open spec fn minus_at(w: Seq<u8>, i: int) -> bool {
    0 <= i < w.len() && w[i] == 0x2d
}

/// The value of the exponent part that starts at `j`: none at the end of the word is zero.
pub open spec fn exponent(w: Seq<u8>, j: int) -> Option<int> {
    if j == w.len() {
        Some(0)
    } else if lower(w[j]) == 0x65 {
        let d = if sign_at(w, j + 1) {
            j + 2
        } else {
            j + 1
        };
        if d < w.len() && digits_end(w, d) == w.len() {
            let e = leading(w.subrange(d, w.len() as int), w.len() - d, MAX_EXPONENT as int);
            Some(
                if minus_at(w, j + 1) {
                    -e
                } else {
                    e
                },
            )
        } else {
            None
        }
    } else {
        None
    }
}

/// The unsigned number that starts at `o`, in units: digits with at most one point among them,
/// then an exponent part. `inf` and `infinity` are the largest magnitude and `nan` is zero.
pub open spec fn magnitude(w: Seq<u8>, o: int) -> Option<int> {
    let rest = lowered(w.subrange(o, w.len() as int));
    if rest == word_inf() || rest == word_infinity() {
        Some(LIMIT as int)
    } else if rest == word_nan() {
        Some(0)
    } else {
        let i = digits_end(w, o);
        let point = i < w.len() && w[i] == 0x2e;
        let f = if point {
            i + 1
        } else {
            i
        };
        let j = if point {
            digits_end(w, f)
        } else {
            i
        };
        if i == o && j == f {
            None
        } else {
            match exponent(w, j) {
                None => None,
                Some(e) => Some(
                    leading(w.subrange(o, i) + w.subrange(f, j), i - o + e + 18, LIMIT as int),
                ),
            }
        }
    }
}

/// Whether a number is written in digits, not in letters.
pub open spec fn in_digits(w: Seq<u8>) -> bool {
    let o = if sign_at(w, 0) {
        1
    } else {
        0int
    };
    o < w.len() && (is_digit(w[o]) || w[o] == 0x2e)
}

/// Whether a number is written in digits, not in letters.
pub fn is_in_digits(w: &[u8]) -> (r: bool)
    ensures
        r == in_digits(w@),
{
    let o: usize = if w.len() > 0 && (w[0] == 0x2b || w[0] == 0x2d) {
        1
    } else {
        0
    };
    o < w.len() && ((w[o] >= 0x30 && w[o] <= 0x39) || w[o] == 0x2e)
}

/// The number that a whole word stands for, if it is one.
pub open spec fn number(w: Seq<u8>) -> Option<Num> {
    let o = if sign_at(w, 0) {
        1
    } else {
        0int
    };
    match magnitude(w, o) {
        None => None,
        Some(m) => Some(
            Num {
                units: (if minus_at(w, 0) {
                    -m
                } else {
                    m
                }) as i128,
            },
        ),
    }
}

pub proof fn lemma_leading_range(ds: Seq<u8>, m: int, cap: int)
    requires
        cap >= 0,
        forall|k: int| 0 <= k < ds.len() ==> is_digit(ds[k]),
    ensures
        0 <= leading(ds, m, cap) <= cap,
    decreases m,
{
    if m > 0 {
        lemma_leading_range(ds, m - 1, cap);
    }
}

proof fn lemma_leading_full(ds: Seq<u8>, m: int, n: int, cap: int)
    requires
        cap >= 0,
        m <= n,
        forall|k: int| 0 <= k < ds.len() ==> is_digit(ds[k]),
        leading(ds, m, cap) == cap,
    ensures
        leading(ds, n, cap) == cap,
    decreases n - m,
{
    if m < n {
        lemma_leading_full(ds, m, n - 1, cap);
        if n <= 0 {
            lemma_leading_range(ds, n, cap);
        }
    }
}

proof fn lemma_leading_zero(ds: Seq<u8>, m: int, n: int, cap: int)
    requires
        cap >= 0,
        ds.len() <= m <= n,
        leading(ds, m, cap) == 0,
    ensures
        leading(ds, n, cap) == 0,
    decreases n - m,
{
    if m < n {
        lemma_leading_zero(ds, m, n - 1, cap);
    }
}

pub fn scan_digits(w: &[u8], start: usize) -> (r: usize)
    requires
        start <= w.len(),
    ensures
        r == digits_end(w@, start as int),
        start <= r <= w.len(),
{
    let mut i: usize = start;
    while i < w.len() && w[i] >= 0x30 && w[i] <= 0x39
        invariant
            start <= i <= w.len(),
            digits_end(w@, start as int) == digits_end(w@, i as int),
        decreases w.len() - i,
    {
        i += 1;
    }
    i
}

pub fn leading_value(ds: &Vec<u8>, m: i128, cap: i128) -> (r: i128)
    requires
        0 <= cap <= LIMIT,
        forall|k: int| 0 <= k < ds@.len() ==> is_digit(ds@[k]),
    ensures
        r == leading(ds@, m as int, cap as int),
        0 <= r <= cap,
{
    let mut acc: i128 = 0;
    let mut k: i128 = 0;
    while k < m
        invariant
            0 <= k,
            k <= m || k == 0,
            0 <= acc <= cap,
            0 <= cap <= LIMIT,
            acc == leading(ds@, k as int, cap as int),
            forall|q: int| 0 <= q < ds@.len() ==> is_digit(ds@[q]),
        decreases m - k,
    {
        if acc == cap {
            proof {
                lemma_leading_full(ds@, k as int, m as int, cap as int);
            }
            return cap;
        }
        if k >= ds.len() as i128 && acc == 0 {
            proof {
                lemma_leading_zero(ds@, k as int, m as int, cap as int);
            }
            return 0;
        }
        let d: i128 = if k < ds.len() as i128 {
            (ds[k as usize] - 0x30) as i128
        } else {
            0
        };
        if acc > cap / 10 {
            acc = cap;
        } else {
            let v: i128 = acc * 10 + d;
            acc = if v > cap {
                cap
            } else {
                v
            };
        }
        k += 1;
    }
    acc
}


fn lower_byte(b: u8) -> (r: u8)
    ensures
        r == lower(b),
{
    if b >= 0x41 && b <= 0x5a {
        b + 0x20
    } else {
        b
    }
}

fn lowered_from(w: &[u8], o: usize) -> (r: Vec<u8>)
    requires
        o <= w.len(),
    ensures
        r@ == lowered(w@.subrange(o as int, w@.len() as int)),
{
    let mut r: Vec<u8> = Vec::new();
    let mut i: usize = o;
    while i < w.len()
        invariant
            o <= i <= w.len(),
            r@.len() == i - o,
            forall|k: int| 0 <= k < r@.len() ==> r@[k] == lower(w@[o + k]),
        decreases w.len() - i,
    {
        r.push(lower_byte(w[i]));
        i += 1;
    }
    assert(r@ =~= lowered(w@.subrange(o as int, w@.len() as int)));
    r
}

fn copy_range(w: &[u8], start: usize, end: usize, out: &mut Vec<u8>)
    requires
        start <= end <= w.len(),
    ensures
        final(out)@ == old(out)@ + w@.subrange(start as int, end as int),
{
    let mut i: usize = start;
    while i < end
        invariant
            start <= i <= end <= w.len(),
            out@ == old(out)@ + w@.subrange(start as int, i as int),
        decreases end - i,
    {
        out.push(w[i]);
        i += 1;
        assert(out@ =~= old(out)@ + w@.subrange(start as int, i as int));
    }
    assert(out@ =~= old(out)@ + w@.subrange(start as int, end as int));
}

fn exponent_value(w: &[u8], j: usize) -> (r: Option<i128>)
    requires
        j <= w.len(),
    ensures
        match r {
            Some(e) => exponent(w@, j as int) == Some(e as int) && -MAX_EXPONENT <= e
                <= MAX_EXPONENT,
            None => exponent(w@, j as int) is None,
        },
{
    if j == w.len() {
        return Some(0);
    }
    if lower_byte(w[j]) != 0x65 {
        return None;
    }
    let signed: bool = j + 1 < w.len() && (w[j + 1] == 0x2b || w[j + 1] == 0x2d);
    let minus: bool = j + 1 < w.len() && w[j + 1] == 0x2d;
    let d: usize = if signed {
        j + 2
    } else {
        j + 1
    };
    if d >= w.len() {
        return None;
    }
    if scan_digits(w, d) != w.len() {
        return None;
    }
    let mut ds: Vec<u8> = Vec::new();
    copy_range(w, d, w.len(), &mut ds);
    proof {
        lemma_digits_end(w@, d as int);
        assert(ds@ =~= w@.subrange(d as int, w@.len() as int));
    }
    let e: i128 = leading_value(&ds, (w.len() - d) as i128, MAX_EXPONENT);
    Some(
        if minus {
            -e
        } else {
            e
        },
    )
}

fn magnitude_value(w: &[u8], o: usize) -> (r: Option<i128>)
    requires
        o <= w.len(),
    ensures
        match r {
            Some(m) => magnitude(w@, o as int) == Some(m as int) && 0 <= m <= LIMIT,
            None => magnitude(w@, o as int) is None,
        },
{
    let rest: Vec<u8> = lowered_from(w, o);
    let inf: [u8; 3] = [0x69, 0x6e, 0x66];
    let infinity: [u8; 8] = [0x69, 0x6e, 0x66, 0x69, 0x6e, 0x69, 0x74, 0x79];
    let nan: [u8; 3] = [0x6e, 0x61, 0x6e];
    assert(inf@ =~= word_inf());
    assert(infinity@ =~= word_infinity());
    assert(nan@ =~= word_nan());
    if bytes_eq(rest.as_slice(), &inf) || bytes_eq(rest.as_slice(), &infinity) {
        return Some(LIMIT);
    }
    if bytes_eq(rest.as_slice(), &nan) {
        return Some(0);
    }
    let i: usize = scan_digits(w, o);
    let point: bool = i < w.len() && w[i] == 0x2e;
    let f: usize = if point {
        i + 1
    } else {
        i
    };
    let j: usize = if point {
        scan_digits(w, f)
    } else {
        i
    };
    if i == o && j == f {
        return None;
    }
    let mut ds: Vec<u8> = Vec::new();
    copy_range(w, o, i, &mut ds);
    copy_range(w, f, j, &mut ds);
    proof {
        lemma_digits_end(w@, o as int);
        lemma_digits_end(w@, f as int);
        assert(ds@ =~= w@.subrange(o as int, i as int) + w@.subrange(f as int, j as int));
    }
    match exponent_value(w, j) {
        None => None,
        Some(e) => Some(leading_value(&ds, (i - o) as i128 + e + 18, LIMIT)),
    }
}

/// Read a whole word as a number. The grammar is that of Rust's decimal float literals in text:
/// an optional sign, digits with at most one point, an optional exponent, or one of the words
/// `inf`, `infinity` and `nan` in any case.
pub fn parse_number(w: &[u8]) -> (r: Option<Num>)
    ensures
        r == number(w@),
        match r {
            Some(n) => n.wf(),
            None => true,
        },
{
    let signed: bool = w.len() > 0 && (w[0] == 0x2b || w[0] == 0x2d);
    let minus: bool = w.len() > 0 && w[0] == 0x2d;
    let o: usize = if signed {
        1
    } else {
        0
    };
    match magnitude_value(w, o) {
        None => None,
        Some(m) => Some(
            Num {
                units: if minus {
                    -m
                } else {
                    m
                },
            },
        ),
    }
}

impl Num {
    /// The magnitude is within the limit.
    pub open spec fn wf(self) -> bool {
        -LIMIT <= self.units <= LIMIT
    }

    /// No fraction.
    pub open spec fn whole(self) -> bool {
        self.units % SCALE == 0
    }

    /// The value without its fraction, for a number that is not negative; zero below that.
    pub open spec fn floor(self) -> int {
        if self.units <= 0 {
            0
        } else {
            self.units / SCALE
        }
    }

    /// The number `n`.
    pub fn from_int(n: i64) -> (r: Num)
        ensures
            r.units == n * SCALE,
            r.wf(),
    {
        Num { units: n as i128 * SCALE }
    }

    pub fn is_whole(self) -> (r: bool)
        requires
            self.units >= 0,
        ensures
            r == self.whole(),
    {
        self.units % SCALE == 0
    }

    /// Without the fraction; zero for a negative number, and no more than the type holds.
    pub fn as_usize(self) -> (r: usize)
        ensures
            r == (if self.floor() > usize::MAX {
                usize::MAX as int
            } else {
                self.floor()
            }),
    {
        if self.units <= 0 {
            return 0;
        }
        let q: i128 = self.units / SCALE;
        if q > usize::MAX as i128 {
            usize::MAX
        } else {
            q as usize
        }
    }

    /// Without the fraction; zero for a negative number, and no more than the type holds.
    pub fn as_u32(self) -> (r: u32)
        ensures
            r == (if self.floor() > u32::MAX {
                u32::MAX as int
            } else {
                self.floor()
            }),
    {
        if self.units <= 0 {
            return 0;
        }
        let q: i128 = self.units / SCALE;
        if q > u32::MAX as i128 {
            u32::MAX
        } else {
            q as u32
        }
    }
}

/// The sum, cut down to the limit.
pub open spec fn sum(a: int, b: int) -> int {
    if a + b > LIMIT {
        LIMIT as int
    } else if a + b < -LIMIT {
        -LIMIT
    } else {
        a + b
    }
}

/// The sum of two counts of units, cut down to the limit.
pub fn sum_units(a: i128, b: i128) -> (r: i128)
    requires
        -LIMIT <= a <= LIMIT,
        -LIMIT <= b <= LIMIT,
    ensures
        r == sum(a as int, b as int),
        -LIMIT <= r <= LIMIT,
{
    if b > 0 && a > LIMIT - b {
        LIMIT
    } else if b < 0 && a < -LIMIT - b {
        -LIMIT
    } else {
        a + b
    }
}

/// Ten to the power `k`.
pub open spec fn tens(k: int) -> int
    decreases k,
{
    if k <= 0 {
        1
    } else {
        10 * tens(k - 1)
    }
}

/// The number that the first `m` digits spell, zeros following the last one.
pub open spec fn spelled(ds: Seq<u8>, m: int) -> int
    decreases m,
{
    if m <= 0 {
        0
    } else {
        10 * spelled(ds, m - 1) + digit_at(ds, m - 1)
    }
}

pub open spec fn are_digits(ds: Seq<u8>) -> bool {
    forall|k: int| 0 <= k < ds.len() ==> is_digit(#[trigger] ds[k])
}

proof fn lemma_spelled(ds: Seq<u8>, m: int)
    requires
        are_digits(ds),
        0 <= m <= 36,
    ensures
        0 <= spelled(ds, m) < tens(m) <= tens(36),
        leading(ds, m, LIMIT as int) == spelled(ds, m),
    decreases m,
{
    reveal_with_fuel(tens, 38);
    assert(tens(36) == 1_000_000_000_000_000_000_000_000_000_000_000_000);
    lemma_tens(m, 36);
    if m > 0 {
        lemma_spelled(ds, m - 1);
    }
}

pub proof fn lemma_tens(m: int, n: int)
    requires
        0 <= m <= n,
    ensures
        1 <= tens(m) <= tens(n),
    decreases n,
{
    if m < n {
        lemma_tens(m, n - 1);
    } else if m > 0 {
        lemma_tens(m - 1, m - 1);
    }
}

proof fn lemma_joined(a: Seq<u8>, b: Seq<u8>, k: int)
    requires
        k >= 0,
    ensures
        spelled(a + b, a.len() + k) == spelled(a, a.len() as int) * tens(k) + spelled(b, k),
    decreases k,
{
    let n = a.len() as int;
    let v = spelled(a, n);
    if k > 0 {
        lemma_joined(a, b, k - 1);
        assert(digit_at(a + b, n + k - 1) == digit_at(b, k - 1));
        let t = tens(k - 1);
        assert(10 * (v * t) == v * (10 * t)) by (nonlinear_arith);
    } else {
        lemma_front_digits(a, b, n);
        assert(v * 1 == v);
    }
}

proof fn lemma_front_digits(a: Seq<u8>, b: Seq<u8>, m: int)
    requires
        0 <= m <= a.len(),
    ensures
        spelled(a + b, m) == spelled(a, m),
    decreases m,
{
    if m > 0 {
        lemma_front_digits(a, b, m - 1);
    }
}

proof fn lemma_zeros(k: int)
    ensures
        spelled(Seq::empty(), k) == 0,
    decreases k,
{
    if k > 0 {
        lemma_zeros(k - 1);
    }
}

proof fn lemma_magnitude(w: Seq<u8>, o: int, a: Seq<u8>, b: Seq<u8>, point: bool)
    requires
        0 <= o <= 1,
        are_digits(a),
        are_digits(b),
        a.len() <= 18,
        b.len() <= 18,
        a.len() + b.len() > 0,
        point || b.len() == 0,
        w.skip(o) == if point {
            a + seq![0x2eu8] + b
        } else {
            a
        },
        o <= w.len(),
    ensures
        magnitude(w, o) == Some(
            spelled(a, a.len() as int) * SCALE + spelled(b, b.len() as int) * tens(18 - b.len()),
        ),
        magnitude(w, o)->0 <= LIMIT,
{
    let rest = w.skip(o);
    let i = o + a.len();
    let n = w.len() as int;
    assert(forall|k: int| o <= k < n ==> w[k] == rest[k - o]);
    assert forall|k: int| o <= k < i implies is_digit(#[trigger] w[k]) by {
        assert(w[k] == a[k - o]);
    }
    assert(point ==> w[i] == 0x2e);
    lemma_digits_end(w, o);
    assert(digits_end(w, o) == i);
    let low = lowered(w.subrange(o, n));
    assert(low[0] == w[o]);
    assert(low != word_inf() && low != word_infinity() && low != word_nan()) by {
        assert(word_inf()[0] == 0x69 && word_infinity()[0] == 0x69 && word_nan()[0] == 0x6e);
    }
    let f = if point {
        i + 1
    } else {
        i
    };
    if point {
        assert forall|k: int| f <= k < n implies is_digit(#[trigger] w[k]) by {
            assert(w[k] == b[k - f]);
        }
        lemma_digits_end(w, f);
        assert(digits_end(w, f) == n);
    }
    assert(w.subrange(o, i) =~= a);
    assert(w.subrange(f, n) =~= b);
    let both = a + b;
    assert forall|k: int| 0 <= k < both.len() implies is_digit(#[trigger] both[k]) by {
        assert(both[k] == if k < a.len() {
            a[k]
        } else {
            b[k - a.len()]
        });
    }
    let m = (a.len() + 18) as int;
    lemma_spelled(both, m);
    lemma_joined(a, b, 18);
    let none = Seq::<u8>::empty();
    lemma_joined(b, none, 18 - b.len());
    lemma_zeros(18 - b.len());
    assert(b + none =~= b);
    reveal_with_fuel(tens, 20);
    assert(tens(18) == SCALE);
    assert(tens(36) == 1_000_000_000_000_000_000_000_000_000_000_000_000) by {
        reveal_with_fuel(tens, 38);
    }
}

/// A number is its digits before the point, and its digits behind the point as a fraction; it is below
/// zero where a minus stands before it. Up to eighteen digits on each side are read exactly.
pub proof fn decimals_are_read_exactly(a: Seq<u8>, b: Seq<u8>)
    requires
        are_digits(a),
        are_digits(b),
        a.len() <= 18,
        b.len() <= 18,
        a.len() + b.len() > 0,
    ensures
        ({
            let v = spelled(a, a.len() as int) * SCALE + spelled(b, b.len() as int) * tens(
                18 - b.len(),
            );
            let w = a + seq![0x2eu8] + b;
            &&& number(w) is Some && number(w)->0.units == v
            &&& number(seq![0x2bu8] + w) is Some && number(seq![0x2bu8] + w)->0.units == v
            &&& number(seq![0x2du8] + w) is Some && number(seq![0x2du8] + w)->0.units == -v
        }),
        a.len() > 0 ==> number(a) is Some && number(a)->0.units == spelled(a, a.len() as int)
            * SCALE,
        a.len() > 0 ==> number(seq![0x2du8] + a) is Some && number(seq![0x2du8] + a)->0.units
            == -(spelled(a, a.len() as int) * SCALE),
{
    let w = a + seq![0x2eu8] + b;
    assert(w[0] == if a.len() > 0 {
        a[0]
    } else {
        0x2e
    });
    assert(w.skip(0) =~= w);
    lemma_magnitude(w, 0, a, b, true);
    let p = seq![0x2bu8] + w;
    assert(p.skip(1) =~= w);
    lemma_magnitude(p, 1, a, b, true);
    let q = seq![0x2du8] + w;
    assert(q.skip(1) =~= w);
    lemma_magnitude(q, 1, a, b, true);
    lemma_spelled(a, a.len() as int);
    lemma_spelled(b, b.len() as int);
    lemma_tens(18 - b.len(), 18);
    let x = spelled(b, b.len() as int);
    let t = tens(18 - b.len());
    assert(0 <= x * t) by (nonlinear_arith)
        requires
            0 <= x,
            1 <= t,
    ;
    if a.len() > 0 {
        let none = Seq::<u8>::empty();
        assert(a.skip(0) =~= a);
        lemma_magnitude(a, 0, a, none, false);
        let r = seq![0x2du8] + a;
        assert(r.skip(1) =~= a);
        lemma_magnitude(r, 1, a, none, false);
    }
}

} // verus!
