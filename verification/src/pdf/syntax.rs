//! The PDF object grammar: what stands at a position of a buffer, and where it ends.

use vstd::prelude::*;

use crate::bytes::{first_at, lemma_first_at, occurs_at, utf8};
use crate::pdf::num::{digits_end, in_digits, leading, number, Num};
use crate::pdf::object::{lookup, DictView, ObjView};

verus! {

/// Nesting cap for arrays and dictionaries.
pub const MAX_DEPTH: usize = 64;

/// PDF whitespace.
pub open spec fn is_ws(b: u8) -> bool {
    b == 0 || b == 0x09 || b == 0x0a || b == 0x0c || b == 0x0d || b == 0x20
}

/// PDF delimiters: `( ) < > [ ] { } / %`.
pub open spec fn is_delim(b: u8) -> bool {
    b == 0x28 || b == 0x29 || b == 0x3c || b == 0x3e || b == 0x5b || b == 0x5d || b == 0x7b || b
        == 0x7d || b == 0x2f || b == 0x25
}

pub open spec fn is_regular(b: u8) -> bool {
    !is_ws(b) && !is_delim(b)
}

/// Whether byte `b` stands at `i`.
pub open spec fn at(s: Seq<u8>, i: int, b: u8) -> bool {
    0 <= i < s.len() && s[i] == b
}

/// Just past the end of the line that `i` is on.
pub open spec fn line_end(s: Seq<u8>, i: int) -> int
    decreases s.len() - i,
{
    if i < 0 || i >= s.len() {
        i
    } else if s[i] == 0x0a || s[i] == 0x0d {
        i + 1
    } else {
        line_end(s, i + 1)
    }
}

pub proof fn lemma_line_end(s: Seq<u8>, i: int)
    requires
        0 <= i <= s.len(),
    ensures
        i <= line_end(s, i) <= s.len(),
        i < s.len() ==> i < line_end(s, i),
    decreases s.len() - i,
{
    if i < s.len() && s[i] != 0x0a && s[i] != 0x0d {
        lemma_line_end(s, i + 1);
    }
}

/// Past whitespace and `%` comments.
pub open spec fn skip(s: Seq<u8>, i: int) -> int
    decreases s.len() - i,
{
    if i < 0 || i >= s.len() {
        i
    } else if is_ws(s[i]) {
        skip(s, i + 1)
    } else if s[i] == 0x25 {
        proof {
            lemma_line_end(s, i);
        }
        skip(s, line_end(s, i))
    } else {
        i
    }
}

pub proof fn lemma_skip(s: Seq<u8>, i: int)
    requires
        0 <= i <= s.len(),
    ensures
        i <= skip(s, i) <= s.len(),
        skip(s, i) < s.len() ==> !is_ws(s[skip(s, i)]) && s[skip(s, i)] != 0x25,
        skip(s, skip(s, i)) == skip(s, i),
    decreases s.len() - i,
{
    if i < s.len() {
        if is_ws(s[i]) {
            lemma_skip(s, i + 1);
        } else if s[i] == 0x25 {
            lemma_line_end(s, i);
            lemma_skip(s, line_end(s, i));
        }
    }
}

/// Where the run of regular bytes that starts at `i` ends.
pub open spec fn word_end(s: Seq<u8>, i: int) -> int
    decreases s.len() - i,
{
    if 0 <= i < s.len() && is_regular(s[i]) {
        word_end(s, i + 1)
    } else {
        i
    }
}

pub proof fn lemma_word_end(s: Seq<u8>, i: int)
    requires
        0 <= i <= s.len(),
    ensures
        i <= word_end(s, i) <= s.len(),
        i < s.len() && is_regular(s[i]) ==> i < word_end(s, i),
        forall|k: int| i <= k < word_end(s, i) ==> is_regular(s[k]),
        word_end(s, i) < s.len() ==> !is_regular(s[word_end(s, i)]),
    decreases s.len() - i,
{
    if i < s.len() && is_regular(s[i]) {
        lemma_word_end(s, i + 1);
    }
}

/// Past what is no object: a whole word, or one delimiter.
pub open spec fn past_junk(s: Seq<u8>, i: int) -> int {
    let a = skip(s, i);
    if word_end(s, a) > a {
        word_end(s, a)
    } else {
        a + 1
    }
}

/// The value of a hex digit.
pub open spec fn hex_value(b: u8) -> Option<u8> {
    if 0x30 <= b <= 0x39 {
        Some((b - 0x30) as u8)
    } else if 0x61 <= b <= 0x66 {
        Some((b - 0x61 + 10) as u8)
    } else if 0x41 <= b <= 0x46 {
        Some((b - 0x41 + 10) as u8)
    } else {
        None
    }
}

pub open spec fn hex_at(s: Seq<u8>, i: int) -> Option<u8> {
    if 0 <= i < s.len() {
        hex_value(s[i])
    } else {
        None
    }
}

/// The characters of a name that starts at `i`, past its slash, after `acc`, and where it ends.
/// `#xx` stands for the character with that hex code.
pub open spec fn name_from(s: Seq<u8>, i: int, acc: Seq<char>) -> (Seq<char>, int)
    decreases s.len() - i,
{
    if i < 0 || i >= s.len() || !is_regular(s[i]) {
        (acc, i)
    } else if s[i] == 0x23 && hex_at(s, i + 1) is Some && hex_at(s, i + 2) is Some {
        name_from(
            s,
            i + 3,
            acc.push((hex_at(s, i + 1).unwrap() * 16 + hex_at(s, i + 2).unwrap()) as char),
        )
    } else {
        name_from(s, i + 1, acc.push(s[i] as char))
    }
}

pub proof fn lemma_name_from(s: Seq<u8>, i: int, acc: Seq<char>)
    requires
        0 <= i <= s.len(),
    ensures
        i <= name_from(s, i, acc).1 <= s.len(),
    decreases s.len() - i,
{
    if i >= s.len() || !is_regular(s[i]) {
    } else if s[i] == 0x23 && hex_at(s, i + 1) is Some && hex_at(s, i + 2) is Some {
        lemma_name_from(
            s,
            i + 3,
            acc.push((hex_at(s, i + 1).unwrap() * 16 + hex_at(s, i + 2).unwrap()) as char),
        );
    } else {
        lemma_name_from(s, i + 1, acc.push(s[i] as char));
    }
}

pub open spec fn octal_at(s: Seq<u8>, i: int) -> bool {
    0 <= i < s.len() && 0x30 <= s[i] <= 0x37
}

/// What the escape at `k`, past its backslash, stands for, and where it ends.
pub open spec fn escape(s: Seq<u8>, k: int) -> (Seq<u8>, int) {
    let e = s[k];
    if e == 0x6e {
        (seq![0x0au8], k + 1)
    } else if e == 0x72 {
        (seq![0x0du8], k + 1)
    } else if e == 0x74 {
        (seq![0x09u8], k + 1)
    } else if e == 0x62 {
        (seq![0x08u8], k + 1)
    } else if e == 0x66 {
        (seq![0x0cu8], k + 1)
    } else if e == 0x0a {
        (Seq::empty(), k + 1)
    } else if e == 0x0d {
        (
            Seq::empty(),
            if at(s, k + 1, 0x0a) {
                k + 2
            } else {
                k + 1
            },
        )
    } else if octal_at(s, k) {
        if !octal_at(s, k + 1) {
            (seq![(e - 0x30) as u8], k + 1)
        } else if !octal_at(s, k + 2) {
            (seq![((e - 0x30) * 8 + (s[k + 1] - 0x30)) as u8], k + 2)
        } else {
            (
                seq![
                    (((e - 0x30) * 64 + (s[k + 1] - 0x30) * 8 + (s[k + 2] - 0x30)) % 256) as u8,
                ],
                k + 3,
            )
        }
    } else {
        (seq![e], k + 1)
    }
}

/// The bytes of a literal string from `i` on, with `depth` parentheses open, after `acc`, and
/// where it ends.
pub open spec fn literal_from(s: Seq<u8>, i: int, depth: int, acc: Seq<u8>) -> (Seq<u8>, int)
    decreases s.len() - i,
{
    if i < 0 || i >= s.len() {
        (acc, i)
    } else if s[i] == 0x5c {
        if i + 1 >= s.len() {
            (acc, i + 1)
        } else {
            literal_from(s, escape(s, i + 1).1, depth, acc + escape(s, i + 1).0)
        }
    } else if s[i] == 0x28 {
        literal_from(s, i + 1, depth + 1, acc.push(s[i]))
    } else if s[i] == 0x29 {
        if depth == 1 {
            (acc, i + 1)
        } else {
            literal_from(s, i + 1, depth - 1, acc.push(s[i]))
        }
    } else {
        literal_from(s, i + 1, depth, acc.push(s[i]))
    }
}

pub proof fn lemma_literal_from(s: Seq<u8>, i: int, depth: int, acc: Seq<u8>)
    requires
        0 <= i <= s.len(),
    ensures
        i <= literal_from(s, i, depth, acc).1 <= s.len(),
    decreases s.len() - i,
{
    if i >= s.len() {
    } else if s[i] == 0x5c {
        if i + 1 < s.len() {
            lemma_literal_from(s, escape(s, i + 1).1, depth, acc + escape(s, i + 1).0);
        }
    } else if s[i] == 0x28 {
        lemma_literal_from(s, i + 1, depth + 1, acc.push(s[i]));
    } else if s[i] == 0x29 {
        if depth != 1 {
            lemma_literal_from(s, i + 1, depth - 1, acc.push(s[i]));
        }
    } else {
        lemma_literal_from(s, i + 1, depth, acc.push(s[i]));
    }
}

/// The first place at or after `i` where byte `b` stands, or the end.
pub open spec fn next_of(s: Seq<u8>, i: int, b: u8) -> int
    decreases s.len() - i,
{
    if i < 0 || i >= s.len() || s[i] == b {
        i
    } else {
        next_of(s, i + 1, b)
    }
}

pub proof fn lemma_next_of(s: Seq<u8>, i: int, b: u8)
    requires
        0 <= i <= s.len(),
    ensures
        i <= next_of(s, i, b) <= s.len(),
        forall|k: int| i <= k < next_of(s, i, b) ==> s[k] != b,
        next_of(s, i, b) < s.len() ==> s[next_of(s, i, b)] == b,
    decreases s.len() - i,
{
    if i < s.len() && s[i] != b {
        lemma_next_of(s, i + 1, b);
    }
}

/// The values of the hex digits among the bytes `i..j`, the others left out.
pub open spec fn hex_digits(s: Seq<u8>, i: int, j: int) -> Seq<u8>
    decreases j - i,
{
    if j <= i {
        Seq::empty()
    } else {
        match hex_value(s[j - 1]) {
            Some(v) => hex_digits(s, i, j - 1).push(v),
            None => hex_digits(s, i, j - 1),
        }
    }
}

/// Two digits to a byte; an odd last one is followed by a zero.
pub open spec fn paired(v: Seq<u8>) -> Seq<u8> {
    Seq::new(
        ((v.len() + 1) / 2) as nat,
        |k: int|
            (v[2 * k] * 16 + if 2 * k + 1 < v.len() {
                v[2 * k + 1] as int
            } else {
                0
            }) as u8,
    )
}

/// The bytes that the hex digits from `i` on stand for, up to `>` or the end.
pub open spec fn hex_bytes(s: Seq<u8>, i: int) -> Seq<u8> {
    paired(hex_digits(s, i, next_of(s, i, 0x3e)))
}

/// Whether a word is an unsigned 32-bit decimal number.
pub open spec fn u32_text(w: Seq<u8>) -> bool {
    let o = if w.len() > 0 && w[0] == 0x2b {
        1
    } else {
        0int
    };
    o < w.len() && digits_end(w, o) == w.len() && leading(
        w.subrange(o, w.len() as int),
        w.len() - o,
        u32::MAX + 1,
    ) <= u32::MAX
}

/// Where the rest of a reference ends (`G R` after the object number), if one starts at `i`.
pub open spec fn ref_tail(s: Seq<u8>, i: int) -> Option<int> {
    let g = skip(s, i);
    let ge = word_end(s, g);
    let r = skip(s, ge);
    let re = word_end(s, r);
    if ge > g && u32_text(s.subrange(g, ge)) && s.subrange(r, re) == seq![0x52u8] {
        Some(re)
    } else {
        None
    }
}

/// The object number that a number stands for.
pub open spec fn ref_number(n: Num) -> u32 {
    if n.floor() > u32::MAX {
        u32::MAX
    } else {
        n.floor() as u32
    }
}

/// The object that the word at `i` makes, and where it ends.
pub open spec fn word_object(s: Seq<u8>, i: int) -> (Option<ObjView>, int) {
    let e = word_end(s, i);
    let w = s.subrange(i, e);
    if e == i {
        (None, i)
    } else if w == utf8("true"@) {
        (Some(ObjView::Bool(true)), e)
    } else if w == utf8("false"@) {
        (Some(ObjView::Bool(false)), e)
    } else if w == utf8("null"@) {
        (Some(ObjView::Null), e)
    } else {
        match number(w) {
            None => (None, i),
            Some(n) => if in_digits(w) && n.units >= 0 && n.whole() && ref_tail(s, e) is Some {
                (Some(ObjView::Ref(ref_number(n))), ref_tail(s, e).unwrap())
            } else {
                (Some(ObjView::Number(n)), e)
            },
        }
    }
}

/// Past the line break that follows the word `stream`.
pub open spec fn past_eol(s: Seq<u8>, i: int) -> int {
    let a = if at(s, i, 0x0d) {
        i + 1
    } else {
        i
    };
    if at(s, a, 0x0a) {
        a + 1
    } else {
        a
    }
}

/// The end of a stream body that the dictionary declares, where `endstream` does follow it.
pub open spec fn declared_end(s: Seq<u8>, start: int, dict: DictView) -> Option<int> {
    match lookup(dict, "Length"@) {
        Some(ObjView::Number(n)) => if n.units >= 0 && start + n.floor() <= s.len() && occurs_at(
            s,
            utf8("endstream"@),
            skip(s, start + n.floor()),
        ) {
            Some(start + n.floor())
        } else {
            None
        },
        _ => None,
    }
}

/// Before the line break that ends at `e`, no further back than `start`.
pub open spec fn before_eol(s: Seq<u8>, start: int, e: int) -> int {
    let a = if e > start && s[e - 1] == 0x0a {
        e - 1
    } else {
        e
    };
    if a > start && s[a - 1] == 0x0d {
        a - 1
    } else {
        a
    }
}

/// The end of a stream body that starts at `start`.
pub open spec fn body_end(s: Seq<u8>, start: int, dict: DictView) -> int {
    match declared_end(s, start, dict) {
        Some(e) => e,
        None => match first_at(s, utf8("endstream"@), start) {
            Some(e) => before_eol(s, start, e),
            None => s.len() as int,
        },
    }
}

/// Past the `endstream` that is the first at or after `e`, or the end.
pub open spec fn past_endstream(s: Seq<u8>, e: int) -> int {
    match first_at(s, utf8("endstream"@), e) {
        Some(k) => k + utf8("endstream"@).len(),
        None => s.len() as int,
    }
}

/// A dictionary that ends at `i`, with the stream body that may follow it.
pub open spec fn with_stream(s: Seq<u8>, i: int, dict: DictView) -> (ObjView, int) {
    let a = skip(s, i);
    if occurs_at(s, utf8("stream"@), a) {
        let start = past_eol(s, a + utf8("stream"@).len());
        let end = body_end(s, start, dict);
        (ObjView::Stream { dict, data: s.subrange(start, end) }, past_endstream(s, end))
    } else {
        (ObjView::Dict(dict), i)
    }
}

/// The object at `i`, inside `depth` arrays and dictionaries, and where it ends. There is none at
/// the end, before a closing delimiter, at an operator, or nested too deep.
pub open spec fn object_at(s: Seq<u8>, i: int, depth: int) -> (Option<ObjView>, int)
    decreases MAX_DEPTH + 2 - depth, s.len() - i, 1int,
{
    if depth > MAX_DEPTH || i < 0 || i > s.len() {
        (None, i)
    } else {
        let a = skip(s, i);
        proof {
            lemma_skip(s, i);
        }
        if a >= s.len() {
            (None, a)
        } else if s[a] == 0x2f {
            let n = name_from(s, a + 1, Seq::empty());
            (Some(ObjView::Name(n.0)), n.1)
        } else if s[a] == 0x28 {
            let l = literal_from(s, a + 1, 1, Seq::empty());
            (Some(ObjView::Str(l.0)), l.1)
        } else if s[a] == 0x5b {
            let l = items_from(s, a + 1, depth, Seq::empty());
            (Some(ObjView::Array(l.0)), l.1)
        } else if s[a] == 0x3c {
            if at(s, a + 1, 0x3c) {
                let d = entries_from(s, a + 2, depth, Seq::empty());
                let o = with_stream(s, d.1, d.0);
                (Some(o.0), o.1)
            } else {
                let e = next_of(s, a + 1, 0x3e);
                (
                    Some(ObjView::Str(hex_bytes(s, a + 1))),
                    if e < s.len() {
                        e + 1
                    } else {
                        e
                    },
                )
            }
        } else if is_delim(s[a]) {
            (None, a)
        } else {
            word_object(s, a)
        }
    }
}

/// The items of an array from `i` on, after `acc`, and where the array ends.
pub open spec fn items_from(s: Seq<u8>, i: int, depth: int, acc: Seq<ObjView>) -> (
    Seq<ObjView>,
    int,
)
    decreases MAX_DEPTH + 2 - depth, s.len() - i, 0int,
{
    let a = skip(s, i);
    if depth > MAX_DEPTH || a >= s.len() {
        (acc, a)
    } else if s[a] == 0x5d {
        (acc, a + 1)
    } else {
        let o = object_at(s, a, depth + 1);
        let j = if o.0 is Some {
            o.1
        } else {
            past_junk(s, o.1)
        };
        if j <= i || j > s.len() {
            (acc, a)
        } else {
            items_from(
                s,
                j,
                depth,
                match o.0 {
                    Some(v) => acc.push(v),
                    None => acc,
                },
            )
        }
    }
}

/// The entries of a dictionary from `i` on, after `acc`, and where the dictionary ends. What
/// stands where a key belongs is dropped.
pub open spec fn entries_from(s: Seq<u8>, i: int, depth: int, acc: DictView) -> (DictView, int)
    decreases MAX_DEPTH + 2 - depth, s.len() - i, 0int,
{
    let a = skip(s, i);
    if depth > MAX_DEPTH || a >= s.len() {
        (acc, a)
    } else if s[a] == 0x3e {
        (
            acc,
            if at(s, a + 1, 0x3e) {
                a + 2
            } else {
                a + 1
            },
        )
    } else if s[a] == 0x2f {
        let n = name_from(s, a + 1, Seq::empty());
        let o = object_at(s, n.1, depth + 1);
        if o.1 <= i || o.1 > s.len() {
            (acc, a)
        } else {
            entries_from(
                s,
                o.1,
                depth,
                acc.push(
                    (
                        n.0,
                        match o.0 {
                            Some(v) => v,
                            None => ObjView::Null,
                        },
                    ),
                ),
            )
        }
    } else {
        let o = object_at(s, a, depth + 1);
        let j = if o.0 is Some {
            o.1
        } else {
            past_junk(s, o.1)
        };
        if j <= i || j > s.len() {
            (acc, a)
        } else {
            entries_from(s, j, depth, acc)
        }
    }
}


pub proof fn lemma_ref_tail(s: Seq<u8>, i: int)
    requires
        0 <= i <= s.len(),
    ensures
        ref_tail(s, i) matches Some(e) ==> i < e <= s.len(),
{
    let g = skip(s, i);
    lemma_skip(s, i);
    let ge = word_end(s, g);
    lemma_word_end(s, g);
    let r = skip(s, ge);
    lemma_skip(s, ge);
    lemma_word_end(s, r);
}

pub proof fn lemma_word_object(s: Seq<u8>, i: int)
    requires
        0 <= i <= s.len(),
    ensures
        word_object(s, i).0 is Some ==> i < word_object(s, i).1 <= s.len(),
        word_object(s, i).0 is None ==> word_object(s, i).1 == i,
{
    lemma_word_end(s, i);
    lemma_ref_tail(s, word_end(s, i));
}

pub proof fn lemma_body_end(s: Seq<u8>, start: int, dict: DictView)
    requires
        0 <= start <= s.len(),
    ensures
        start <= body_end(s, start, dict) <= s.len(),
{
    lemma_first_at(s, utf8("endstream"@), start);
}

pub proof fn lemma_past_endstream(s: Seq<u8>, e: int)
    requires
        0 <= e <= s.len(),
    ensures
        e <= past_endstream(s, e) <= s.len(),
{
    lemma_first_at(s, utf8("endstream"@), e);
}

pub proof fn lemma_with_stream(s: Seq<u8>, i: int, dict: DictView)
    requires
        0 <= i <= s.len(),
    ensures
        i <= with_stream(s, i, dict).1 <= s.len(),
{
    let a = skip(s, i);
    lemma_skip(s, i);
    if occurs_at(s, utf8("stream"@), a) {
        let start = past_eol(s, a + utf8("stream"@).len());
        lemma_body_end(s, start, dict);
        lemma_past_endstream(s, body_end(s, start, dict));
    }
}

/// Reading an object never moves back or past the end, and an object that is there takes at
/// least one byte. Where there is none, only whitespace and comments are skipped.
pub proof fn lemma_object_at(s: Seq<u8>, i: int, depth: int)
    requires
        0 <= i <= s.len(),
    ensures
        i <= object_at(s, i, depth).1 <= s.len(),
        object_at(s, i, depth).0 is Some ==> i < object_at(s, i, depth).1,
        object_at(s, i, depth).0 is None ==> object_at(s, i, depth).1 == (if depth > MAX_DEPTH {
            i
        } else {
            skip(s, i)
        }),
    decreases MAX_DEPTH + 2 - depth, s.len() - i, 1int,
{
    if depth <= MAX_DEPTH {
        let a = skip(s, i);
        lemma_skip(s, i);
        if a < s.len() {
            lemma_name_from(s, a + 1, Seq::empty());
            lemma_literal_from(s, a + 1, 1, Seq::empty());
            if s[a] == 0x5b {
                lemma_items_from(s, a + 1, depth, Seq::empty());
            } else if s[a] == 0x3c && at(s, a + 1, 0x3c) {
                lemma_entries_from(s, a + 2, depth, Seq::empty());
                let d = entries_from(s, a + 2, depth, Seq::empty());
                lemma_with_stream(s, d.1, d.0);
            }
            lemma_next_of(s, a + 1, 0x3e);
            lemma_word_object(s, a);
        }
    }
}

/// Stepping over what is no object moves forward, and not past the end.
pub proof fn lemma_past_junk(s: Seq<u8>, i: int)
    requires
        0 <= i < s.len(),
        skip(s, i) == i,
    ensures
        i < past_junk(s, i) <= s.len(),
{
    lemma_word_end(s, i);
}

/// Inside an array, each step moves forward.
pub proof fn lemma_items_step(s: Seq<u8>, i: int, depth: int)
    requires
        0 <= i <= s.len(),
        skip(s, i) < s.len(),
    ensures
        ({
            let a = skip(s, i);
            let o = object_at(s, a, depth);
            let j = if o.0 is Some {
                o.1
            } else {
                past_junk(s, o.1)
            };
            i <= a < j <= s.len() && (o.0 is None ==> o.1 == a)
        }),
    decreases MAX_DEPTH + 2 - depth, s.len() - i, 2int,
{
    let a = skip(s, i);
    lemma_skip(s, i);
    lemma_object_at(s, a, depth);
    lemma_past_junk(s, a);
}

pub proof fn lemma_items_from(s: Seq<u8>, i: int, depth: int, acc: Seq<ObjView>)
    requires
        0 <= i <= s.len(),
        depth <= MAX_DEPTH,
    ensures
        i <= items_from(s, i, depth, acc).1 <= s.len(),
    decreases MAX_DEPTH + 2 - depth, s.len() - i, 0int,
{
    let a = skip(s, i);
    lemma_skip(s, i);
    if a < s.len() && s[a] != 0x5d {
        let o = object_at(s, a, depth + 1);
        lemma_items_step(s, i, depth + 1);
        if o.0 is Some {
            lemma_items_from(s, o.1, depth, acc.push(o.0.unwrap()));
        } else {
            lemma_items_from(s, past_junk(s, o.1), depth, acc);
        }
    }
}

/// Inside a dictionary, each entry moves forward.
pub proof fn lemma_entry_step(s: Seq<u8>, i: int, depth: int)
    requires
        0 <= i <= s.len(),
        skip(s, i) < s.len(),
    ensures
        ({
            let a = skip(s, i);
            let n = name_from(s, a + 1, Seq::empty());
            let o = object_at(s, n.1, depth);
            i <= a < n.1 <= o.1 <= s.len()
        }),
    decreases MAX_DEPTH + 2 - depth, s.len() - i, 2int,
{
    let a = skip(s, i);
    lemma_skip(s, i);
    lemma_name_from(s, a + 1, Seq::empty());
    lemma_object_at(s, name_from(s, a + 1, Seq::empty()).1, depth);
}

pub proof fn lemma_entries_from(s: Seq<u8>, i: int, depth: int, acc: DictView)
    requires
        0 <= i <= s.len(),
        depth <= MAX_DEPTH,
    ensures
        i <= entries_from(s, i, depth, acc).1 <= s.len(),
    decreases MAX_DEPTH + 2 - depth, s.len() - i, 0int,
{
    let a = skip(s, i);
    lemma_skip(s, i);
    if a < s.len() && s[a] != 0x3e {
        if s[a] == 0x2f {
            let n = name_from(s, a + 1, Seq::empty());
            let o = object_at(s, n.1, depth + 1);
            lemma_entry_step(s, i, depth + 1);
            let v = match o.0 {
                Some(v) => v,
                None => ObjView::Null,
            };
            lemma_entries_from(s, o.1, depth, acc.push((n.0, v)));
        } else {
            let o = object_at(s, a, depth + 1);
            lemma_items_step(s, i, depth + 1);
            let j = if o.0 is Some {
                o.1
            } else {
                past_junk(s, o.1)
            };
            lemma_entries_from(s, j, depth, acc);
        }
    }
}

} // verus!
