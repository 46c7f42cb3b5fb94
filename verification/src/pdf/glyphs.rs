//! What the codes of strings stand for.

use vstd::prelude::*;

use crate::pdf::cmap::{
    char_after, decode_from, width_of, with_chars, with_list, with_range, with_run, CMapView,
    MAX_ENTRIES,
};
use crate::pdf::content::shown;
use crate::pdf::encoding::{
    code_between, code_of, entry_text, piece_end, string_text, unit_at, utf16_from, win_ansi_char,
    win_ansi_text,
};
use crate::pdf::object::ObjView;

verus! {

/// The two bytes of a 16-bit unit, highest first.
pub open spec fn unit_bytes(u: int) -> Seq<u8> {
    seq![(u / 256) as u8, (u % 256) as u8]
}

/// A character in UTF-16, highest byte first.
pub open spec fn utf16_char(c: char) -> Seq<u8> {
    let n = c as int;
    if n < 0x10000 {
        unit_bytes(n)
    } else {
        unit_bytes(0xD800 + (n - 0x10000) / 0x400) + unit_bytes(0xDC00 + (n - 0x10000) % 0x400)
    }
}

/// A text in UTF-16, highest byte first.
pub open spec fn utf16_bytes(t: Seq<char>) -> Seq<u8>
    decreases t.len(),
{
    if t.len() == 0 {
        Seq::empty()
    } else {
        utf16_bytes(t.drop_last()) + utf16_char(t.last())
    }
}

proof fn lemma_unit(s: Seq<u8>, i: int, u: int)
    requires
        0 <= i,
        i + 2 <= s.len(),
        0 <= u < 0x10000,
        s.subrange(i, i + 2) == unit_bytes(u),
    ensures
        unit_at(s, i) == u,
{
    let b = s.subrange(i, i + 2);
    assert(b[0] == s[i] && b[1] == s[i + 1]);
    assert(s[i] == u / 256 && s[i + 1] == u % 256);
}

proof fn lemma_one_char(s: Seq<u8>, i: int, c: char, acc: Seq<char>)
    requires
        0 <= i,
        i + utf16_char(c).len() <= s.len(),
        s.subrange(i, i + utf16_char(c).len()) == utf16_char(c),
    ensures
        utf16_from(s, i, acc) == utf16_from(s, i + utf16_char(c).len(), acc.push(c)),
{
    let n = c as int;
    let w = utf16_char(c);
    if n < 0x10000 {
        lemma_unit(s, i, n);
    } else {
        let h = 0xD800 + (n - 0x10000) / 0x400;
        let l = 0xDC00 + (n - 0x10000) % 0x400;
        assert(s.subrange(i, i + 2) =~= w.subrange(0, 2));
        assert(s.subrange(i + 2, i + 4) =~= w.subrange(2, 4)) by {
            assert(w == s.subrange(i, i + 4));
        }
        assert(w.subrange(0, 2) =~= unit_bytes(h));
        assert(w.subrange(2, 4) =~= unit_bytes(l));
        lemma_unit(s, i, h);
        lemma_unit(s, i + 2, l);
        assert(0x10000 + (h - 0xD800) * 0x400 + (l - 0xDC00) == n);
    }
}

proof fn lemma_whole_text(t: Seq<char>, pre: Seq<u8>, post: Seq<u8>, acc: Seq<char>)
    ensures
        utf16_from(pre + utf16_bytes(t) + post, pre.len() as int, acc) == utf16_from(
            pre + utf16_bytes(t) + post,
            (pre.len() + utf16_bytes(t).len()) as int,
            acc + t,
        ),
    decreases t.len(),
{
    let all = pre + utf16_bytes(t) + post;
    if t.len() == 0 {
        assert(acc + t =~= acc);
    } else {
        let c = t.last();
        let w = utf16_char(c);
        let head = utf16_bytes(t.drop_last());
        lemma_whole_text(t.drop_last(), pre, w + post, acc);
        assert(pre + head + (w + post) =~= all);
        let i = (pre.len() + head.len()) as int;
        assert(all.subrange(i, i + w.len()) =~= w);
        lemma_one_char(all, i, c, acc + t.drop_last());
        assert((acc + t.drop_last()).push(c) =~= acc + t);
    }
}

/// UTF-16 text reads back: behind a byte order mark as a text string, and as it is in the entry of a
/// character map.
pub proof fn utf16_reads_back(t: Seq<char>)
    requires
        t.len() > 0,
    ensures
        string_text(seq![0xFEu8, 0xFFu8] + utf16_bytes(t)) == t,
        entry_text(utf16_bytes(t)) == t,
{
    let none = Seq::<u8>::empty();
    let mark = seq![0xFEu8, 0xFFu8];
    lemma_whole_text(t, mark, none, Seq::empty());
    lemma_whole_text(t, none, none, Seq::empty());
    assert(mark + utf16_bytes(t) + none =~= mark + utf16_bytes(t));
    assert(none + utf16_bytes(t) + none =~= utf16_bytes(t));
    assert(Seq::<char>::empty() + t =~= t);
    assert(utf16_char(t.last()).len() >= 2);
}

/// A code reads its bytes highest first.
pub proof fn codes_are_read_highest_first(a: u8, b: u8, c: u8, d: u8)
    ensures
        code_of(seq![a]) == a,
        code_of(seq![a, b]) == 0x100 * a + b,
        code_of(seq![a, b, c]) == 0x1_0000 * a + 0x100 * b + c,
        code_of(seq![a, b, c, d]) == 0x100_0000 * a + 0x1_0000 * b + 0x100 * c + d,
{
    reveal_with_fuel(code_between, 5);
}

/// Bytes without a font are read as WinAnsi, one character each: printable ASCII and Latin-1 as they
/// are, and no two bytes alike.
pub proof fn plain_bytes_are_characters(s: Seq<u8>, i: int, a: u8, b: u8)
    requires
        0 <= i < s.len(),
    ensures
        shown(s, None).len() == s.len(),
        s[i] < 0x80 || s[i] >= 0xA0 ==> shown(s, None)[i] == s[i] as char,
        0x80 <= s[i] <= 0x9F ==> shown(s, None)[i] as int > 0xFF || shown(s, None)[i] == s[i]
            as char,
        a != b ==> win_ansi_char(a) != win_ansi_char(b),
        string_text(s).len() == s.len() || (s[0] == 0xFE && s[1] == 0xFF),
{
}

/// What one code shows: the text that the map has for it; where it has none, the plain character if
/// codes are single bytes, and nothing if they are wider.
pub open spec fn code_text(m: CMapView, piece: Seq<u8>) -> Seq<char> {
    if m.map.contains_key(code_of(piece)) {
        m.map[code_of(piece)]
    } else if width_of(m.code_bytes) == 1 {
        seq![win_ansi_char(piece[0])]
    } else {
        Seq::empty()
    }
}

proof fn lemma_codes_shift(s: Seq<u8>, i: int, j: int)
    requires
        0 <= i <= j <= s.len(),
    ensures
        code_between(s, i, j) == code_between(s.subrange(i, j), 0, j - i),
    decreases j - i,
{
    if i < j {
        lemma_codes_shift(s, i, j - 1);
        lemma_codes_prefix(s.subrange(i, j), s.subrange(i, j - 1), j - 1 - i);
    }
}

proof fn lemma_codes_prefix(s: Seq<u8>, t: Seq<u8>, n: int)
    requires
        0 <= n <= s.len(),
        n <= t.len(),
        forall|k: int| 0 <= k < n ==> s[k] == t[k],
    ensures
        code_between(s, 0, n) == code_between(t, 0, n),
    decreases n,
{
    if n > 0 {
        lemma_codes_prefix(s, t, n - 1);
    }
}

proof fn lemma_decoded_after(m: CMapView, s: Seq<u8>, i: int, acc: Seq<char>)
    requires
        0 <= i,
    ensures
        decode_from(m, s, i, acc) == acc + decode_from(m, s, i, Seq::empty()),
    decreases s.len() - i,
{
    let none = Seq::<char>::empty();
    let width = width_of(m.code_bytes);
    if i < s.len() {
        let j = piece_end(s.len() as int, i, width);
        let code = code_between(s, i, j) as u32;
        let rest = decode_from(m, s, j, none);
        if m.map.contains_key(code) {
            lemma_decoded_after(m, s, j, acc + m.map[code]);
            lemma_decoded_after(m, s, j, none + m.map[code]);
            assert(acc + m.map[code] + rest =~= acc + (none + m.map[code] + rest));
        } else if width == 1 {
            let c = win_ansi_char(s[i]);
            lemma_decoded_after(m, s, j, acc.push(c));
            lemma_decoded_after(m, s, j, none.push(c));
            assert(acc.push(c) + rest =~= acc + (none.push(c) + rest));
        } else {
            lemma_decoded_after(m, s, j, acc);
        }
    } else {
        assert(acc + none =~= acc);
    }
}

proof fn lemma_decoded_behind(m: CMapView, a: Seq<u8>, b: Seq<u8>, i: int)
    requires
        0 <= i,
    ensures
        decode_from(m, a + b, a.len() + i, Seq::empty()) == decode_from(m, b, i, Seq::empty()),
    decreases b.len() - i,
{
    let none = Seq::<char>::empty();
    let width = width_of(m.code_bytes);
    let s = a + b;
    if i < b.len() {
        let j = piece_end(b.len() as int, i, width);
        lemma_codes_shift(s, a.len() + i, a.len() + j);
        lemma_codes_shift(b, i, j);
        assert(s.subrange(a.len() + i, a.len() + j) =~= b.subrange(i, j));
        assert(s[a.len() + i] == b[i]);
        lemma_decoded_behind(m, a, b, j);
        let code = code_between(b, i, j) as u32;
        if m.map.contains_key(code) {
            lemma_decoded_after(m, s, a.len() + j, none + m.map[code]);
            lemma_decoded_after(m, b, j, none + m.map[code]);
        } else if width == 1 {
            lemma_decoded_after(m, s, a.len() + j, none.push(win_ansi_char(b[i])));
            lemma_decoded_after(m, b, j, none.push(win_ansi_char(b[i])));
        }
    }
}

/// A string is read code by code, each as many bytes long as the codes of the map are: what its first
/// code shows comes first, and the rest follows.
pub proof fn strings_are_read_code_by_code(m: CMapView, piece: Seq<u8>, rest: Seq<u8>)
    requires
        piece.len() == width_of(m.code_bytes),
    ensures
        shown(piece + rest, Some(m)) == code_text(m, piece) + shown(rest, Some(m)),
        shown(Seq::empty(), Some(m)) == Seq::<char>::empty(),
{
    let none = Seq::<char>::empty();
    let s = piece + rest;
    let w = piece.len() as int;
    let code = code_between(s, 0, w) as u32;
    lemma_codes_prefix(s, piece, w);
    lemma_decoded_behind(m, piece, rest, 0);
    if m.map.contains_key(code) {
        lemma_decoded_after(m, s, w, none + m.map[code]);
        assert(none + m.map[code] =~= m.map[code]);
    } else if w == 1 {
        lemma_decoded_after(m, s, w, none.push(win_ansi_char(s[0])));
        assert(none.push(win_ansi_char(s[0])) =~= seq![win_ansi_char(piece[0])]);
    } else {
        assert(none + shown(rest, Some(m)) =~= shown(rest, Some(m)));
    }
}

/// Codes take from one to four bytes.
pub proof fn codes_take_one_to_four_bytes(n: int)
    ensures
        1 <= width_of(n) <= 4,
        1 <= n <= 4 ==> width_of(n) == n,
{
}

proof fn lemma_run_keeps(m: Map<u32, Seq<char>>, lo: u32, hi: u32, text: Seq<char>, n: int, k: u32)
    requires
        0 <= n,
        lo <= hi,
        k < lo + n,
        m.contains_key(k),
    ensures
        with_run(m, lo, hi, text, n).contains_key(k),
        with_run(m, lo, hi, text, n)[k] == m[k],
    decreases hi - lo + 1 - n,
{
    if !(n > hi - lo || m.len() >= MAX_ENTRIES) {
        let c = (lo + n) as u32;
        let t = seq![char_after(text[0], n)] + text.skip(1);
        lemma_run_keeps(m.insert(c, t), lo, hi, text, n + 1, k);
    }
}

proof fn lemma_run(m: Map<u32, Seq<char>>, lo: u32, hi: u32, text: Seq<char>, n: int, k: int)
    requires
        m.dom().finite(),
        0 <= n <= k <= hi - lo,
        lo <= hi,
        m.len() + (hi - lo + 1 - n) <= MAX_ENTRIES,
    ensures
        with_run(m, lo, hi, text, n).contains_key((lo + k) as u32),
        with_run(m, lo, hi, text, n)[(lo + k) as u32] == seq![char_after(text[0], k)]
            + text.skip(1),
    decreases hi - lo + 1 - n,
{
    let c = (lo + n) as u32;
    let t = seq![char_after(text[0], n)] + text.skip(1);
    let next = m.insert(c, t);
    assert(next.len() <= m.len() + 1) by {
        assert(next.dom() =~= m.dom().insert(c));
    }
    if k == n {
        lemma_run_keeps(next, lo, hi, text, n + 1, c);
    } else {
        lemma_run(next, lo, hi, text, n + 1, k);
    }
}

proof fn lemma_char_after(c: char, n: int)
    requires
        0 <= n,
        c as int + n < 0xD800,
    ensures
        char_after(c, n) == (c as int + n) as char,
        char_after(c, n) as int == c as int + n,
{
}

/// A range of codes stands for consecutive characters from the given one on, with the rest of its text
/// behind each, as long as the map has room for them.
pub proof fn a_range_maps_consecutive_characters(
    m: Map<u32, Seq<char>>,
    lo: u32,
    hi: u32,
    dst: Seq<u8>,
    k: int,
)
    requires
        m.dom().finite(),
        0 <= k <= hi - lo <= 0xFFFF,
        m.len() + (hi - lo + 1) <= MAX_ENTRIES,
        entry_text(dst).len() > 0,
    ensures
        ({
            let r = with_range(m, lo, hi, ObjView::Str(dst));
            let t = entry_text(dst);
            &&& r.contains_key((lo + k) as u32)
            &&& r[(lo + k) as u32].len() == t.len()
            &&& r[(lo + k) as u32].skip(1) == t.skip(1)
            &&& t[0] as int + k < 0xD800 ==> r[(lo + k) as u32][0] as int == t[0] as int + k
        }),
{
    let t = entry_text(dst);
    lemma_run(m, lo, hi, t, 0, k);
    let r = with_range(m, lo, hi, ObjView::Str(dst));
    if t[0] as int + k < 0xD800 {
        lemma_char_after(t[0], k);
    }
    let all = seq![char_after(t[0], k)] + t.skip(1);
    assert(r[(lo + k) as u32] == all);
    assert(all.skip(1) =~= t.skip(1));
    assert(all[0] == char_after(t[0], k));
    assert(all.len() == t.len());
}

/// A pair maps its code to its text, and leaves the other codes.
pub proof fn a_pair_maps_its_code(m: CMapView, src: Seq<u8>, dst: Seq<u8>, c: u32)
    requires
        m.map.len() < MAX_ENTRIES,
    ensures
        ({
            let r = with_chars(m, seq![ObjView::Str(src), ObjView::Str(dst)], 0);
            &&& r.map.contains_key(code_of(src))
            &&& r.map[code_of(src)] == entry_text(dst)
            &&& c != code_of(src) ==> r.map.contains_key(c) == m.map.contains_key(c)
            &&& c != code_of(src) && m.map.contains_key(c) ==> r.map[c] == m.map[c]
            &&& r.code_bytes >= m.code_bytes
            &&& r.code_bytes == m.code_bytes || r.code_bytes == width_of(src.len() as int)
            &&& r.code_bytes >= width_of(src.len() as int)
        }),
{
    reveal_with_fuel(with_chars, 2);
}

/// A list maps consecutive codes to its strings.
pub proof fn a_list_maps_consecutive_codes(
    m: Map<u32, Seq<char>>,
    lo: u32,
    a: Seq<u8>,
    b: Seq<u8>,
    hi: u32,
)
    requires
        m.dom().finite(),
        m.len() + 2 <= MAX_ENTRIES,
        lo < u32::MAX,
        hi == lo + 1,
    ensures
        ({
            let r = with_range(m, lo, hi, ObjView::Array(seq![ObjView::Str(a), ObjView::Str(b)]));
            r == m.insert(lo, entry_text(a)).insert(hi, entry_text(b))
        }),
{
    let items = seq![ObjView::Str(a), ObjView::Str(b)];
    let one = m.insert(lo, entry_text(a));
    assert(one.dom() =~= m.dom().insert(lo));
    assert(one.len() <= m.len() + 1);
    reveal_with_fuel(with_list, 3);
}

} // verus!
