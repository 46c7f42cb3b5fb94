//! Numbers and columns as text.

use vstd::prelude::*;

use crate::text::chars_of;

verus! {

/// The character of a decimal or hex digit.
pub open spec fn digit_char(d: nat) -> char {
    if d < 10 {
        (0x30 + d) as char
    } else {
        (0x57 + d) as char
    }
}

/// A number in decimal.
pub open spec fn decimal(n: nat) -> Seq<char>
    decreases n,
{
    if n < 10 {
        seq![digit_char(n)]
    } else {
        decimal(n / 10).push(digit_char(n % 10))
    }
}

/// A number in hex, in lower case.
pub open spec fn hexadecimal(n: nat) -> Seq<char>
    decreases n,
{
    if n < 16 {
        seq![digit_char(n)]
    } else {
        hexadecimal(n / 16).push(digit_char(n % 16))
    }
}

/// `n` copies of a character.
pub open spec fn repeated(c: char, n: int) -> Seq<char> {
    if n > 0 {
        Seq::new(n as nat, |k: int| c)
    } else {
        Seq::empty()
    }
}

/// Text filled up with `c` on the left to a width.
pub open spec fn padded_left(s: Seq<char>, c: char, width: int) -> Seq<char> {
    repeated(c, width - s.len()) + s
}

/// Text filled up with `c` on the right to a width.
pub open spec fn padded_right(s: Seq<char>, c: char, width: int) -> Seq<char> {
    s + repeated(c, width - s.len())
}

fn digit_of(d: u8) -> (r: char)
    requires
        d < 16,
    ensures
        r == digit_char(d as nat),
{
    if d < 10 {
        (0x30 + d) as char
    } else {
        (0x57 + d) as char
    }
}

/// A number in decimal.
pub fn decimal_of(n: u64) -> (r: String)
    ensures
        r@ == decimal(n as nat),
{
    wide_decimal_of(n as u128)
}

/// A number in decimal that may be wider than a machine word.
pub fn wide_decimal_of(n: u128) -> (r: String)
    ensures
        r@ == decimal(n as nat),
    decreases n,
{
    let mut s: String = if n < 10 {
        String::new()
    } else {
        wide_decimal_of(n / 10)
    };
    s.push(digit_of((n % 10) as u8));
    assert(n < 10 ==> s@ =~= seq![digit_char(n as nat)]);
    s
}

/// A number in hex, in lower case.
pub fn hexadecimal_of(n: usize) -> (r: String)
    ensures
        r@ == hexadecimal(n as nat),
    decreases n,
{
    let mut s: String = if n < 16 {
        String::new()
    } else {
        hexadecimal_of(n / 16)
    };
    s.push(digit_of((n % 16) as u8));
    assert(n < 16 ==> s@ =~= seq![digit_char(n as nat)]);
    s
}

/// Append `n` copies of a character.
pub fn push_repeated(s: &mut String, c: char, n: usize)
    ensures
        final(s)@ == old(s)@ + repeated(c, n as int),
{
    let mut i: usize = 0;
    assert(s@ =~= old(s)@ + repeated(c, 0));
    while i < n
        invariant
            i <= n,
            s@ == old(s)@ + repeated(c, i as int),
        decreases n - i,
    {
        s.push(c);
        i += 1;
        assert(s@ =~= old(s)@ + repeated(c, i as int));
    }
}

/// The number of characters of a piece of text.
pub fn char_count(s: &str) -> (r: usize)
    ensures
        r == s@.len(),
{
    chars_of(s).len()
}

/// Text filled up with `c` on the left to a width.
pub fn pad_left(s: &str, c: char, width: usize) -> (r: String)
    ensures
        r@ == padded_left(s@, c, width as int),
{
    let n: usize = char_count(s);
    let mut r: String = String::new();
    if n < width {
        push_repeated(&mut r, c, width - n);
    }
    r.push_str(s);
    assert(r@ =~= padded_left(s@, c, width as int));
    r
}

/// Text filled up with `c` on the right to a width.
pub fn pad_right(s: &str, c: char, width: usize) -> (r: String)
    ensures
        r@ == padded_right(s@, c, width as int),
{
    let n: usize = char_count(s);
    let mut r: String = String::new();
    r.push_str(s);
    if n < width {
        push_repeated(&mut r, c, width - n);
    }
    assert(r@ =~= padded_right(s@, c, width as int));
    r
}

/// Two pieces of text, one after the other.
pub fn join2(a: &str, b: &str) -> (r: String)
    ensures
        r@ == a@ + b@,
{
    let mut r: String = String::new();
    r.push_str(a);
    r.push_str(b);
    assert(r@ =~= a@ + b@);
    r
}

/// Three pieces of text, one after the other.
pub fn join3(a: &str, b: &str, c: &str) -> (r: String)
    ensures
        r@ == a@ + b@ + c@,
{
    let mut r: String = join2(a, b);
    r.push_str(c);
    r
}

/// Five pieces of text, one after the other.
pub fn join5(a: &str, b: &str, c: &str, d: &str, e: &str) -> (r: String)
    ensures
        r@ == a@ + b@ + c@ + d@ + e@,
{
    let mut r: String = join3(a, b, c);
    r.push_str(d);
    r.push_str(e);
    r
}

} // verus!
