//! What the simple stream filters undo, and how strings and names read back.

use vstd::prelude::*;

use crate::pdf::filters::{
    base85_bytes, base85_from, be_bytes, capped, chain, filtered, group85, inflated,
    left_of, may_filter, may_inflate, nearest, padded, predicted, row_bytes, rows_from, runs_from,
    size_entry, unpredicted,
};
use crate::pdf::object::{lookup, DictView, ObjView};
use crate::pdf::syntax::{
    escape, hex_at, hex_bytes, hex_digits, hex_value, lemma_next_of, literal_from, name_from, next_of,
    paired,
};

verus! {

/// What each predictor adds: nothing, the byte on the left, the byte above, their mean, or the one of
/// the three neighbours that is nearest to left plus above minus above left.
pub proof fn predictors_add_their_neighbour(a: u8, b: u8, c: u8)
    ensures
        predicted(0, a, b, c) == 0,
        predicted(1, a, b, c) == a,
        predicted(2, a, b, c) == b,
        2 * predicted(3, a, b, c) <= a + b < 2 * predicted(3, a, b, c) + 2,
        predicted(4, a, b, c) == nearest(a, b, c),
        ({
            let n = nearest(a, b, c);
            let gap = |x: u8|
                if a + b - c >= x {
                    a + b - c - x
                } else {
                    x - (a + b - c)
                };
            &&& n == a || n == b || n == c
            &&& gap(n) <= gap(a)
            &&& gap(n) <= gap(b)
            &&& gap(n) <= gap(c)
            &&& gap(a) == gap(n) ==> n == a
            &&& gap(a) != gap(n) && gap(b) == gap(n) ==> n == b
        }),
{
}

/// A row that is stored as the differences from what a predictor adds is recovered.
pub proof fn a_predicted_row_is_recovered(tag: u8, row: Seq<u8>, prev: Seq<u8>, bpp: int, n: int)
    requires
        bpp >= 1,
        0 <= n <= row.len(),
        prev.len() == row.len(),
    ensures
        ({
            let stored = Seq::new(
                row.len(),
                |k: int|
                    ((row[k] - predicted(
                        tag,
                        left_of(row, k, bpp),
                        prev[k],
                        left_of(prev, k, bpp),
                    )) % 256) as u8,
            );
            row_bytes(tag, stored, prev, bpp, n) == row.take(n)
        }),
    decreases n,
{
    let stored = Seq::new(
        row.len(),
        |k: int|
            ((row[k] - predicted(tag, left_of(row, k, bpp), prev[k], left_of(prev, k, bpp))) % 256)
                as u8,
    );
    if n > 0 {
        a_predicted_row_is_recovered(tag, row, prev, bpp, n - 1);
        let done = row_bytes(tag, stored, prev, bpp, n - 1);
        let k = n - 1;
        assert(left_of(done, k, bpp) == left_of(row, k, bpp));
        let p = predicted(tag, left_of(row, k, bpp), prev[k], left_of(prev, k, bpp));
        let d = (row[k] - p) % 256;
        assert(0 <= d < 256);
        assert(stored[k] == d as u8);
        assert((d + p) % 256 == row[k]);
        assert(row.take(n) =~= row.take(k).push(row[k]));
        assert(row_bytes(tag, stored, prev, bpp, n) =~= row.take(n));
    } else {
        assert(row.take(n) =~= Seq::empty());
    }
}

proof fn lemma_runs_after(s: Seq<u8>, i: int, acc: Seq<u8>)
    requires
        0 <= i,
    ensures
        runs_from(s, i, acc) == acc + runs_from(s, i, Seq::empty()),
    decreases s.len() - i,
{
    let none = Seq::<u8>::empty();
    if i >= s.len() || s[i] == 128 {
        assert(acc + none =~= acc);
    } else if s[i] < 128 {
        let end = if i + 2 + s[i] <= s.len() {
            i + 2 + s[i]
        } else {
            s.len() as int
        };
        let part = s.subrange(i + 1, end);
        lemma_runs_after(s, end, acc + part);
        lemma_runs_after(s, end, none + part);
        let rest = runs_from(s, end, none);
        assert(acc + part + rest =~= acc + (none + part + rest));
    } else if i + 1 >= s.len() {
        assert(acc + none =~= acc);
    } else {
        let part = Seq::new((257 - s[i]) as nat, |k: int| s[i + 1]);
        lemma_runs_after(s, i + 2, acc + part);
        lemma_runs_after(s, i + 2, none + part);
        let rest = runs_from(s, i + 2, none);
        assert(acc + part + rest =~= acc + (none + part + rest));
    }
}

proof fn lemma_runs_behind(a: Seq<u8>, b: Seq<u8>, i: int)
    requires
        0 <= i,
    ensures
        runs_from(a + b, a.len() + i, Seq::empty()) == runs_from(b, i, Seq::empty()),
    decreases b.len() - i,
{
    let none = Seq::<u8>::empty();
    let s = a + b;
    let j = a.len() + i;
    if i < b.len() {
        assert(s[j] == b[i]);
        if b[i] == 128 {
        } else if b[i] < 128 {
            let end = if i + 2 + b[i] <= b.len() {
                i + 2 + b[i]
            } else {
                b.len() as int
            };
            let part = b.subrange(i + 1, end);
            assert(s.subrange(j + 1, a.len() + end) =~= part);
            lemma_runs_behind(a, b, end);
            lemma_runs_after(s, a.len() + end, none + part);
            lemma_runs_after(b, end, none + part);
        } else if i + 1 < b.len() {
            assert(s[j + 1] == b[i + 1]);
            let part = Seq::new((257 - b[i]) as nat, |k: int| b[i + 1]);
            assert(Seq::new((257 - s[j]) as nat, |k: int| s[j + 1]) =~= part);
            lemma_runs_behind(a, b, i + 2);
            lemma_runs_after(s, a.len() + i + 2, none + part);
            lemma_runs_after(b, i + 2, none + part);
        }
    }
}

/// Run-length coding: a length byte below 128 is followed by one byte more than it says, which are
/// kept; one above it by a byte that is repeated; and 128 ends the data.
pub proof fn runs_are_undone(bytes: Seq<u8>, b: u8, n: int, rest: Seq<u8>)
    requires
        1 <= bytes.len() <= 128,
        2 <= n <= 128,
    ensures
        ({
            let undone = |s: Seq<u8>| runs_from(s, 0, Seq::empty());
            &&& undone(seq![(bytes.len() - 1) as u8] + bytes + rest) == bytes + undone(rest)
            &&& undone(seq![(257 - n) as u8, b] + rest) == Seq::new(n as nat, |k: int| b) + undone(
                rest,
            )
            &&& undone(seq![128u8] + rest) == Seq::<u8>::empty()
            &&& undone(Seq::empty()) == Seq::<u8>::empty()
        }),
{
    let none = Seq::<u8>::empty();
    let head = seq![(bytes.len() - 1) as u8] + bytes;
    let s = head + rest;
    assert(s[0] == bytes.len() - 1);
    assert(s.subrange(1, head.len() as int) =~= bytes);
    lemma_runs_behind(head, rest, 0);
    lemma_runs_after(s, head.len() as int, none + bytes);
    assert(none + bytes =~= bytes);
    let pair = seq![(257 - n) as u8, b];
    let t = pair + rest;
    assert(t[0] == 257 - n && t[1] == b);
    let part = Seq::new(n as nat, |k: int| b);
    assert(Seq::new((257 - t[0]) as nat, |k: int| t[1]) =~= part);
    lemma_runs_behind(pair, rest, 0);
    lemma_runs_after(t, 2, none + part);
    assert(none + part =~= part);
    assert((seq![128u8] + rest)[0] == 128);
}

/// The digit of base 85 that a character stands for.
pub open spec fn digit85(d: int) -> u8 {
    (d + 0x21) as u8
}

/// Five base-85 digits stand for the four bytes of their number, highest first.
pub proof fn five_digits_are_four_bytes(a: int, b: int, c: int, d: int, e: int)
    requires
        0 <= a < 85,
        0 <= b < 85,
        0 <= c < 85,
        0 <= d < 85,
        0 <= e < 85,
        52200625 * a + 614125 * b + 7225 * c + 85 * d + e <= 0xFFFF_FFFF,
    ensures
        ({
            let s = seq![digit85(a), digit85(b), digit85(c), digit85(d), digit85(e), 0x7eu8];
            let r = base85_bytes(s);
            &&& r.len() == 4
            &&& 0x100_0000 * r[0] + 0x1_0000 * r[1] + 0x100 * r[2] + r[3] == 52200625 * a + 614125
                * b + 7225 * c + 85 * d + e
        }),
{
    let s = seq![digit85(a), digit85(b), digit85(c), digit85(d), digit85(e), 0x7eu8];
    let v = 52200625 * a + 614125 * b + 7225 * c + 85 * d + e;
    let none = Seq::<u8>::empty();
    let g1 = none.push(a as u8);
    let g2 = g1.push(b as u8);
    let g3 = g2.push(c as u8);
    let g4 = g3.push(d as u8);
    let g5 = g4.push(e as u8);
    lemma_digit85(s, 0, none, none, a);
    lemma_digit85(s, 1, g1, none, b);
    lemma_digit85(s, 2, g2, none, c);
    lemma_digit85(s, 3, g3, none, d);
    lemma_digit85(s, 4, g4, none, e);
    assert(base85_from(s, 0, none, none) == base85_from(s, 5, none, none + group85(g5)));
    assert(base85_from(s, 5, none, none + group85(g5)) == none + group85(g5) + group85(none));
    assert(crate::pdf::filters::filled85(g5) =~= g5);
    assert(crate::pdf::filters::base85(g5) == v);
    lemma_be_bytes(v);
    let r = be_bytes(v);
    assert(r.take(4) =~= r);
    assert(group85(g5) == r);
    assert(none + group85(g5) + group85(none) =~= r);
    assert(base85_bytes(s) == base85_from(s, 0, none, none));
}

proof fn lemma_digit85(s: Seq<u8>, i: int, group: Seq<u8>, acc: Seq<u8>, d: int)
    requires
        0 <= i < s.len(),
        0 <= d < 85,
        s[i] == digit85(d),
        group.len() <= 4,
    ensures
        base85_from(s, i, group, acc) == if group.len() == 4 {
            base85_from(s, i + 1, Seq::empty(), acc + group85(group.push(d as u8)))
        } else {
            base85_from(s, i + 1, group.push(d as u8), acc)
        },
{
    assert(s[i] - 0x21 == d);
}

proof fn lemma_be_bytes(v: int)
    requires
        0 <= v <= 0xFFFF_FFFF,
    ensures
        be_bytes(v).len() == 4,
        0x100_0000 * be_bytes(v)[0] + 0x1_0000 * be_bytes(v)[1] + 0x100 * be_bytes(v)[2]
            + be_bytes(v)[3] == v,
{
    let r = be_bytes(v);
    assert(0 <= v / 0x100_0000 < 0x100);
    assert(r[0] == v / 0x100_0000);
    assert(r[1] == v / 0x1_0000 % 0x100);
    assert(r[2] == v / 0x100 % 0x100);
    assert(r[3] == v % 0x100);
}

/// The hex digit of a value, in upper case.
pub open spec fn hex_char(n: int) -> u8 {
    if n < 10 {
        (0x30 + n) as u8
    } else {
        (0x37 + n) as u8
    }
}

/// Bytes written as hex digits, two each, with the closing mark behind them.
pub open spec fn hex_text(b: Seq<u8>) -> Seq<u8> {
    Seq::new(
        (2 * b.len() + 1) as nat,
        |k: int|
            if k == 2 * b.len() {
                0x3eu8
            } else if k % 2 == 0 {
                hex_char(b[k / 2] as int / 16)
            } else {
                hex_char(b[k / 2] as int % 16)
            },
    )
}

proof fn lemma_hex_char(n: int)
    requires
        0 <= n < 16,
    ensures
        hex_value(hex_char(n)) == Some(n as u8),
        hex_char(n) != 0x3e,
{
}

proof fn lemma_hex_digits(b: Seq<u8>, j: int)
    requires
        0 <= j <= 2 * b.len(),
    ensures
        hex_digits(hex_text(b), 0, j).len() == j,
        forall|k: int|
            0 <= k < j ==> #[trigger] hex_digits(hex_text(b), 0, j)[k] == if k % 2 == 0 {
                (b[k / 2] as int / 16) as u8
            } else {
                (b[k / 2] as int % 16) as u8
            },
    decreases j,
{
    if j > 0 {
        lemma_hex_digits(b, j - 1);
        let k = j - 1;
        let byte = b[k / 2] as int;
        lemma_hex_char(byte / 16);
        lemma_hex_char(byte % 16);
    }
}

/// Bytes written as hex digits read back.
pub proof fn hex_reads_back(b: Seq<u8>)
    ensures
        hex_bytes(hex_text(b), 0) == b,
{
    let s = hex_text(b);
    let n = 2 * b.len() as int;
    lemma_next_of(s, 0, 0x3e);
    let e = next_of(s, 0, 0x3e);
    assert(e == n) by {
        if e < n {
            let byte = b[e / 2] as int;
            lemma_hex_char(byte / 16);
            lemma_hex_char(byte % 16);
        } else {
            assert(s[n] == 0x3e);
        }
    }
    lemma_hex_digits(b, n);
    let v = hex_digits(s, 0, n);
    assert forall|k: int| 0 <= k < b.len() implies #[trigger] paired(v)[k] == b[k] by {
        let byte = b[k] as int;
        assert((2 * k) / 2 == k && (2 * k + 1) / 2 == k);
        assert(v[2 * k] == (byte / 16) as u8);
        assert(v[2 * k + 1] == (byte % 16) as u8);
        assert(byte / 16 * 16 + byte % 16 == byte);
    }
    assert(paired(v) =~= b);
}

/// Bytes written as octal escapes, with the closing parenthesis behind them.
pub open spec fn octal_text(b: Seq<u8>) -> Seq<u8> {
    Seq::new(
        (4 * b.len() + 1) as nat,
        |k: int|
            if k == 4 * b.len() {
                0x29u8
            } else if k % 4 == 0 {
                0x5cu8
            } else if k % 4 == 1 {
                (0x30 + b[k / 4] / 64) as u8
            } else if k % 4 == 2 {
                (0x30 + b[k / 4] / 8 % 8) as u8
            } else {
                (0x30 + b[k / 4] % 8) as u8
            },
    )
}

proof fn lemma_octal(b: Seq<u8>, k: int)
    requires
        0 <= k <= b.len(),
    ensures
        literal_from(octal_text(b), 4 * k, 1, b.take(k)) == (b, (4 * b.len() + 1) as int),
    decreases b.len() - k,
{
    let s = octal_text(b);
    if k < b.len() {
        lemma_octal(b, k + 1);
        let i = 4 * k;
        let x = b[k];
        assert(i % 4 == 0 && (i + 1) % 4 == 1 && (i + 2) % 4 == 2 && (i + 3) % 4 == 3);
        assert(i / 4 == k && (i + 1) / 4 == k && (i + 2) / 4 == k && (i + 3) / 4 == k);
        assert(s[i] == 0x5c);
        assert(s[i + 1] == (0x30 + x / 64) as u8);
        assert(s[i + 2] == (0x30 + x / 8 % 8) as u8);
        assert(s[i + 3] == (0x30 + x % 8) as u8);
        assert(x / 64 * 64 + x / 8 % 8 * 8 + x % 8 == x);
        assert(escape(s, i + 1) == (seq![x], i + 4));
        assert(b.take(k) + seq![x] =~= b.take(k + 1));
    } else {
        assert(s[4 * k] == 0x29);
        assert(b.take(k) =~= b);
    }
}

/// Any bytes can be written in a literal string with octal escapes, and read back.
pub proof fn octal_escapes_read_back(b: Seq<u8>)
    ensures
        literal_from(octal_text(b), 0, 1, Seq::empty()) == (b, (4 * b.len() + 1) as int),
{
    lemma_octal(b, 0);
    assert(b.take(0) =~= Seq::empty());
}

/// The letters behind a backslash stand for control characters; a parenthesis and a backslash behind
/// one stand for themselves, and a line break behind one for nothing.
pub proof fn escapes_stand_for_characters(s: Seq<u8>, k: int)
    requires
        0 <= k < s.len(),
    ensures
        s[k] == 0x6e ==> escape(s, k) == (seq![10u8], k + 1),
        s[k] == 0x72 ==> escape(s, k) == (seq![13u8], k + 1),
        s[k] == 0x74 ==> escape(s, k) == (seq![9u8], k + 1),
        s[k] == 0x62 ==> escape(s, k) == (seq![8u8], k + 1),
        s[k] == 0x66 ==> escape(s, k) == (seq![12u8], k + 1),
        s[k] == 0x28 || s[k] == 0x29 || s[k] == 0x5c ==> escape(s, k) == (seq![s[k]], k + 1),
        s[k] == 10 ==> escape(s, k).0.len() == 0 && escape(s, k).1 == k + 1,
{
}

/// Parentheses that are balanced belong to the string.
pub proof fn balanced_parentheses_are_kept(a: u8, b: u8, c: u8)
    requires
        a != 0x28 && a != 0x29 && a != 0x5c,
        b != 0x28 && b != 0x29 && b != 0x5c,
        c != 0x28 && c != 0x29 && c != 0x5c,
    ensures
        literal_from(seq![a, 0x28u8, b, 0x29u8, c, 0x29u8], 0, 1, Seq::empty()).0 == seq![
            a,
            0x28u8,
            b,
            0x29u8,
            c,
        ],
{
    reveal_with_fuel(literal_from, 7);
    assert(Seq::<u8>::empty().push(a).push(0x28).push(b).push(0x29).push(c) =~= seq![
        a,
        0x28u8,
        b,
        0x29u8,
        c,
    ]);
}

/// The characters of a name, each written as a hex code.
pub open spec fn name_text(b: Seq<u8>) -> Seq<u8> {
    Seq::new(
        (3 * b.len()) as nat,
        |k: int|
            if k % 3 == 0 {
                0x23u8
            } else if k % 3 == 1 {
                hex_char(b[k / 3] as int / 16)
            } else {
                hex_char(b[k / 3] as int % 16)
            },
    )
}

proof fn lemma_name(b: Seq<u8>, k: int, acc: Seq<char>)
    requires
        0 <= k <= b.len(),
    ensures
        name_from(name_text(b), 3 * k, acc).0 == acc + b.skip(k).map_values(|x: u8| x as char),
    decreases b.len() - k,
{
    let s = name_text(b);
    let f = |x: u8| x as char;
    if k < b.len() {
        let i = 3 * k;
        let x = b[k] as int;
        assert(i % 3 == 0 && (i + 1) % 3 == 1 && (i + 2) % 3 == 2);
        assert(i / 3 == k && (i + 1) / 3 == k && (i + 2) / 3 == k);
        lemma_hex_char(x / 16);
        lemma_hex_char(x % 16);
        assert(s[i] == 0x23);
        assert(hex_at(s, i + 1) == Some((x / 16) as u8));
        assert(hex_at(s, i + 2) == Some((x % 16) as u8));
        assert(x / 16 * 16 + x % 16 == x);
        lemma_name(b, k + 1, acc.push(b[k] as char));
        assert(acc.push(b[k] as char) + b.skip(k + 1).map_values(f) =~= acc + b.skip(k).map_values(
            f,
        ));
    } else {
        assert(acc + b.skip(k).map_values(f) =~= acc);
    }
}

/// A hash sign and two hex digits in a name stand for the character with that code.
pub proof fn hex_codes_in_names_read_back(b: Seq<u8>)
    ensures
        name_from(name_text(b), 0, Seq::empty()).0 == b.map_values(|x: u8| x as char),
{
    lemma_name(b, 0, Seq::empty());
    assert(b.skip(0) =~= b);
    assert(Seq::<char>::empty() + b.map_values(|x: u8| x as char) =~= b.map_values(
        |x: u8| x as char,
    ));
}

/// The byte on the left is the one of the pixel before, and zero before the first pixel.
pub proof fn the_left_neighbour_is_a_pixel_away(row: Seq<u8>, k: int, bpp: int)
    requires
        0 <= k <= row.len(),
        bpp >= 1,
    ensures
        k >= bpp ==> left_of(row, k, bpp) == row[k - bpp],
        k < bpp ==> left_of(row, k, bpp) == 0,
{
}

proof fn lemma_rows_from(s: Seq<u8>, i: int, len: int, bpp: int, prev: Seq<u8>, acc: Seq<u8>)
    requires
        0 <= i <= s.len(),
        len > 0,
    ensures
        rows_from(s, i, len, bpp, prev, acc) == rows_from(s.skip(i), 0, len, bpp, prev, acc),
    decreases s.len() - i,
{
    let t = s.skip(i);
    if i < s.len() {
        assert(t[0] == s[i]);
        assert(padded(t, 1, len) =~= padded(s, i + 1, len));
        let row = row_bytes(s[i], padded(s, i + 1, len), prev, bpp, len);
        if i + 1 + len <= s.len() {
            lemma_rows_from(s, i + 1 + len, len, bpp, row, acc + row);
            if i > 0 {
                lemma_rows_from(t, 1 + len, len, bpp, row, acc + row);
                assert(t.skip(1 + len) =~= s.skip(i + 1 + len));
            } else {
                assert(t =~= s);
            }
        }
    }
}

/// Rows are undone one after the other: each starts with the number of its predictor, and is the row
/// above for the next one.
pub proof fn rows_are_undone_in_order(
    tag: u8,
    stored: Seq<u8>,
    rest: Seq<u8>,
    bpp: int,
    prev: Seq<u8>,
    acc: Seq<u8>,
)
    requires
        stored.len() > 0,
    ensures
        ({
            let len = stored.len() as int;
            let row = row_bytes(tag, stored, prev, bpp, len);
            rows_from(seq![tag] + stored + rest, 0, len, bpp, prev, acc) == rows_from(
                rest,
                0,
                len,
                bpp,
                row,
                acc + row,
            )
        }),
        rows_from(Seq::empty(), 0, stored.len() as int, bpp, prev, acc) == acc,
{
    let len = stored.len() as int;
    let s = seq![tag] + stored + rest;
    let row = row_bytes(tag, stored, prev, bpp, len);
    assert(s[0] == tag);
    assert(padded(s, 1, len) =~= stored);
    lemma_rows_from(s, 1 + len, len, bpp, row, acc + row);
    assert(s.skip(1 + len) =~= rest);
}

/// A row holds as many bytes as its columns take up, each with its colours and each of those with its
/// bits; a pixel is as many bytes as one column takes up. One colour of eight bits and one column are
/// meant where nothing is said.
pub proof fn rows_are_as_long_as_their_columns(
    d: DictView,
    parms: DictView,
    data: Seq<u8>,
    columns: int,
    colors: int,
    bits: int,
    len: int,
    bpp: int,
)
    requires
        lookup(d, "DecodeParms"@) == Some(ObjView::Dict(parms)),
        size_entry(parms, "Predictor"@, 1) >= 10,
        columns == size_entry(parms, "Columns"@, 1),
        colors == size_entry(parms, "Colors"@, 1),
        bits == size_entry(parms, "BitsPerComponent"@, 8),
        0 < columns * colors * bits < usize::MAX - 7,
        8 * (len - 1) < columns * colors * bits <= 8 * len,
        8 * (bpp - 1) < colors * bits <= 8 * bpp,
        bpp >= 1,
    ensures
        unpredicted(d, data) == rows_from(
            data,
            0,
            len,
            bpp,
            Seq::new(len as nat, |k: int| 0u8),
            Seq::empty(),
        ),
{
    let row = columns * colors * bits;
    assert((row + 7) / 8 == len);
    let pixel = colors * bits;
    assert((pixel + 7) / 8 == bpp);
}

/// The names of filters by their lengths, and by a letter where two are as long.
proof fn lemma_filter_names()
    ensures
        "FlateDecode"@.len() == 11,
        "Fl"@.len() == 2,
        "Fl"@[0] == 'F',
        "ASCIIHexDecode"@.len() == 14,
        "AHx"@.len() == 3,
        "AHx"@[1] == 'H',
        "ASCII85Decode"@.len() == 13,
        "A85"@.len() == 3,
        "A85"@[1] == '8',
        "RunLengthDecode"@.len() == 15,
        "RL"@.len() == 2,
        "RL"@[0] == 'R',
{
    reveal_strlit("FlateDecode");
    reveal_strlit("Fl");
    reveal_strlit("ASCIIHexDecode");
    reveal_strlit("AHx");
    reveal_strlit("ASCII85Decode");
    reveal_strlit("A85");
    reveal_strlit("RunLengthDecode");
    reveal_strlit("RL");
}

/// Each filter goes by a long and a short name, and undoes its own encoding; by another name nothing is
/// decoded.
pub proof fn filters_go_by_two_names(data: Seq<u8>, out: Option<Seq<u8>>, other: Seq<char>)
    requires
        other != "FlateDecode"@ && other != "Fl"@,
        other != "ASCIIHexDecode"@ && other != "AHx"@,
        other != "ASCII85Decode"@ && other != "A85"@,
        other != "RunLengthDecode"@ && other != "RL"@,
    ensures
        filtered("FlateDecode"@, data) == inflated(data),
        filtered("Fl"@, data) == inflated(data),
        filtered("ASCIIHexDecode"@, data) == Some(hex_bytes(data, 0)),
        filtered("AHx"@, data) == Some(hex_bytes(data, 0)),
        filtered("ASCII85Decode"@, data) == Some(base85_bytes(data)),
        filtered("A85"@, data) == Some(base85_bytes(data)),
        filtered("RunLengthDecode"@, data) == Some(runs_from(data, 0, Seq::empty())),
        filtered("RL"@, data) == Some(runs_from(data, 0, Seq::empty())),
        filtered(other, data) is None,
        may_filter("FlateDecode"@, data, out) == may_inflate(data, out),
        may_filter("Fl"@, data, out) == may_inflate(data, out),
        may_filter(other, data, out) ==> out is None,
{
    lemma_filter_names();
}

/// The filters of a stream are undone in the order in which they are named, each on what the one before
/// it gave, of which no more is kept than the limit.
pub proof fn filters_are_undone_in_order(
    first: Seq<char>,
    second: Seq<char>,
    data: Seq<u8>,
    between: Seq<u8>,
    last: Seq<u8>,
)
    requires
        filtered(first, data) == Some(between),
        filtered(second, capped(between)) == Some(last),
    ensures
        chain(seq![first, second], 0, data) == Some(capped(last)),
        chain(seq![first], 0, data) == Some(capped(between)),
        chain(Seq::empty(), 0, data) == Some(data),
{
    reveal_with_fuel(chain, 4);
    let both = seq![first, second];
    assert(both[0] == first && both[1] == second);
    assert(seq![first][0] == first);
}

} // verus!
