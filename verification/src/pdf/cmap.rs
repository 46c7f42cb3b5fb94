//! Character maps: the text that the codes of a font stand for.

use std::collections::HashMap;

use vstd::prelude::*;

use crate::bytes::{bytes_are, utf8};
use crate::pdf::encoding::{
    be_code, code_at, code_between, code_of, decode_utf16be, entry_text, piece_end, win_ansi,
    win_ansi_char, REPLACEMENT,
};
use crate::pdf::lexer::Lexer;
use crate::pdf::object::{items_view, lemma_items_push, lemma_items_view, Obj, ObjView};
use crate::pdf::token::{lemma_token_at, next_token, token_at, Token, TokenView};
use crate::text::{chars_of, is_code, string_of};

verus! {

/// Entries of a map at most.
pub const MAX_ENTRIES: usize = 65_536;

/// Operands beyond this many are dropped.
pub const MAX_PENDING: usize = 4096;

/// A `/ToUnicode` map: codes to text, and how many bytes a code takes.
pub struct CMap {
    pub map: HashMap<u32, String>,
    pub code_bytes: usize,
}

/// What a character map is.
#[verifier::ext_equal]
pub struct CMapView {
    pub map: Map<u32, Seq<char>>,
    pub code_bytes: int,
}

pub open spec fn texts(m: Map<u32, String>) -> Map<u32, Seq<char>> {
    m.map_values(|s: String| s@)
}

impl CMap {
    pub open spec fn view(&self) -> CMapView {
        CMapView { map: texts(self.map@), code_bytes: self.code_bytes as int }
    }
}

proof fn lemma_texts_insert(m: Map<u32, String>, k: u32, v: String)
    ensures
        texts(m.insert(k, v)) == texts(m).insert(k, v@),
{
    assert(texts(m.insert(k, v)) =~= texts(m).insert(k, v@));
}

proof fn lemma_texts_len(m: Map<u32, String>)
    ensures
        texts(m).len() == m.len(),
{
    assert(texts(m).dom() =~= m.dom());
}

/// A code length, cut down to one to four bytes.
pub open spec fn width_of(n: int) -> int {
    if n < 1 {
        1
    } else if n > 4 {
        4
    } else {
        n
    }
}

/// The wider of a width and that of a code of `n` bytes.
pub open spec fn widened(width: int, n: int) -> int {
    if width_of(n) > width {
        width_of(n)
    } else {
        width
    }
}

fn wider(width: usize, n: usize) -> (r: usize)
    ensures
        r == widened(width as int, n as int),
{
    let w: usize = if n < 1 {
        1
    } else if n > 4 {
        4
    } else {
        n
    };
    if w > width {
        w
    } else {
        width
    }
}

/// The map with single entries added: pairs of a code and its text, from the `k`th operand on. A
/// pair of anything else is passed over.
pub open spec fn with_chars(m: CMapView, p: Seq<ObjView>, k: int) -> CMapView
    decreases p.len() - k,
{
    if k < 0 || k + 1 >= p.len() {
        m
    } else {
        match (p[k], p[k + 1]) {
            (ObjView::Str(src), ObjView::Str(dst)) => if m.map.len() >= MAX_ENTRIES {
                m
            } else {
                with_chars(
                    CMapView {
                        map: m.map.insert(code_of(src), entry_text(dst)),
                        code_bytes: widened(m.code_bytes, src.len() as int),
                    },
                    p,
                    k + 2,
                )
            },
            _ => with_chars(m, p, k + 2),
        }
    }
}

/// The character `n` places after `c`, or the replacement where there is none.
pub open spec fn char_after(c: char, n: int) -> char {
    if is_code(c as int + n) {
        (c as int + n) as char
    } else {
        REPLACEMENT
    }
}

/// The map with entries for the codes from `lo + n` to `hi`, until it is full: consecutive codes
/// stand for consecutive first characters.
pub open spec fn with_run(
    m: Map<u32, Seq<char>>,
    lo: u32,
    hi: u32,
    text: Seq<char>,
    n: int,
) -> Map<u32, Seq<char>>
    decreases hi - lo + 1 - n,
{
    if n < 0 || n > hi - lo || m.len() >= MAX_ENTRIES {
        m
    } else {
        with_run(
            m.insert((lo + n) as u32, seq![char_after(text[0], n)] + text.skip(1)),
            lo,
            hi,
            text,
            n + 1,
        )
    }
}

/// The map with one entry for each string of a list, from the `k`th on, at consecutive codes, until
/// it is full.
pub open spec fn with_list(
    m: Map<u32, Seq<char>>,
    lo: u32,
    items: Seq<ObjView>,
    k: int,
) -> Map<u32, Seq<char>>
    decreases items.len() - k,
{
    if k < 0 || k >= items.len() || lo + k > u32::MAX || m.len() >= MAX_ENTRIES {
        m
    } else {
        match items[k] {
            ObjView::Str(s) => with_list(m.insert((lo + k) as u32, entry_text(s)), lo, items, k + 1),
            _ => with_list(m, lo, items, k + 1),
        }
    }
}

/// The map with one range added: from `lo` to `hi`, to what `dst` says. A range the wrong way
/// round or wider than 65 536 codes is passed over.
pub open spec fn with_range(
    m: Map<u32, Seq<char>>,
    lo: u32,
    hi: u32,
    dst: ObjView,
) -> Map<u32, Seq<char>> {
    if hi < lo || hi - lo > 0xFFFF {
        m
    } else {
        match dst {
            ObjView::Str(start) => if entry_text(start).len() == 0 {
                m
            } else {
                with_run(m, lo, hi, entry_text(start), 0)
            },
            ObjView::Array(items) => with_list(m, lo, items, 0),
            _ => m,
        }
    }
}

/// The map with ranges added: triples of a first code, a last code and what they stand for, from
/// the `k`th operand on. A triple of anything else is passed over.
pub open spec fn with_ranges(m: CMapView, p: Seq<ObjView>, k: int) -> CMapView
    decreases p.len() - k,
{
    if k < 0 || k + 2 >= p.len() {
        m
    } else {
        match (p[k], p[k + 1]) {
            (ObjView::Str(lo), ObjView::Str(hi)) => if m.map.len() >= MAX_ENTRIES {
                m
            } else {
                with_ranges(
                    CMapView {
                        map: with_range(m.map, code_of(lo), code_of(hi), p[k + 2]),
                        code_bytes: widened(m.code_bytes, lo.len() as int),
                    },
                    p,
                    k + 3,
                )
            },
            _ => with_ranges(m, p, k + 3),
        }
    }
}

/// The map after the operator `word` with operands `p`.
pub open spec fn after_word(m: CMapView, word: Seq<u8>, p: Seq<ObjView>) -> CMapView {
    if word == utf8("endbfchar"@) {
        with_chars(m, p, 0)
    } else if word == utf8("endbfrange"@) {
        with_ranges(m, p, 0)
    } else {
        m
    }
}

/// Whether an operator opens or closes a section of the map, which drops the operands so far.
pub open spec fn is_section(word: Seq<u8>) -> bool {
    word == utf8("beginbfchar"@) || word == utf8("endbfchar"@) || word == utf8("beginbfrange"@)
        || word == utf8("endbfrange"@)
}

/// What the map's source says from `i` on, with operands `p` pending and `m` read so far.
pub open spec fn map_from(s: Seq<u8>, i: int, p: Seq<ObjView>, m: CMapView) -> CMapView
    decreases s.len() - i,
{
    let t = token_at(s, i);
    if i < 0 || i > s.len() || t.1 <= i || t.1 > s.len() {
        m
    } else {
        match t.0 {
            TokenView::Operand(o) => map_from(
                s,
                t.1,
                if p.len() < MAX_PENDING {
                    p.push(o)
                } else {
                    p
                },
                m,
            ),
            TokenView::Word(w) => map_from(
                s,
                t.1,
                if is_section(w) {
                    Seq::empty()
                } else {
                    p
                },
                after_word(m, w, p),
            ),
            TokenView::Junk => map_from(s, t.1, p, m),
            TokenView::End => m,
        }
    }
}

/// The character map that a source says.
pub open spec fn cmap_of(s: Seq<u8>) -> CMapView {
    map_from(s, 0, Seq::empty(), CMapView { map: Map::empty(), code_bytes: 1 })
}

/// The text of the codes from `i` on, after `acc`. A code that is not mapped is plain text where
/// codes are single bytes, and nothing where they are wider.
pub open spec fn decode_from(m: CMapView, s: Seq<u8>, i: int, acc: Seq<char>) -> Seq<char>
    decreases s.len() - i,
{
    let width = width_of(m.code_bytes);
    if i < 0 || i >= s.len() {
        acc
    } else {
        let j = piece_end(s.len() as int, i, width);
        let code = code_between(s, i, j) as u32;
        if m.map.contains_key(code) {
            decode_from(m, s, j, acc + m.map[code])
        } else if width == 1 {
            decode_from(m, s, j, acc.push(win_ansi_char(s[i])))
        } else {
            decode_from(m, s, j, acc)
        }
    }
}

impl CMap {
    fn insert(&mut self, code: u32, text: String)
        ensures
            final(self)@.map == old(self)@.map.insert(code, text@),
            final(self).code_bytes == old(self).code_bytes,
    {
        proof {
            lemma_texts_insert(self.map@, code, text);
        }
        self.map.insert(code, text);
    }

    fn is_full(&self) -> (r: bool)
        ensures
            r == (self@.map.len() >= MAX_ENTRIES),
    {
        proof {
            lemma_texts_len(self.map@);
        }
        self.map.len() >= MAX_ENTRIES
    }

    fn add_chars(&mut self, p: &Vec<Obj>)
        ensures
            final(self)@ == with_chars(old(self)@, items_view(p@), 0),
    {
        proof {
            lemma_items_view(p@);
        }
        let ghost v = items_view(p@);
        let mut k: usize = 0;
        while p.len() - k >= 2
            invariant
                k <= p.len(),
                v == items_view(p@),
                v.len() == p@.len(),
                forall|i: int| 0 <= i < p@.len() ==> (#[trigger] v[i]) == p@[i]@,
                with_chars(old(self)@, v, 0) == with_chars(self@, v, k as int),
            decreases p.len() - k,
        {
            assert(v[k as int] == p@[k as int]@);
            assert(v[k + 1] == p@[k + 1]@);
            match (&p[k], &p[k + 1]) {
                (Obj::Str(src), Obj::Str(dst)) => {
                    if self.is_full() {
                        return;
                    }
                    let ghost before = self@;
                    self.code_bytes = wider(self.code_bytes, src.len());
                    let text: String = decode_utf16be(dst.as_slice());
                    self.insert(be_code(src.as_slice()), text);
                    assert(self@ =~= CMapView {
                        map: before.map.insert(code_of(src@), entry_text(dst@)),
                        code_bytes: widened(before.code_bytes, src@.len() as int),
                    });
                },
                _ => {},
            }
            k = k + 2;
        }
    }

    fn add_run(&mut self, lo: u32, hi: u32, base: &Vec<char>)
        requires
            lo <= hi,
            hi - lo <= 0xFFFF,
            base@.len() > 0,
        ensures
            final(self).code_bytes == old(self).code_bytes,
            final(self)@.map == with_run(old(self)@.map, lo, hi, base@, 0),
    {
        let first: char = base[0];
        let mut n: u32 = 0;
        while n <= hi - lo
            invariant
                lo <= hi,
                hi - lo <= 0xFFFF,
                n <= hi - lo + 1,
                base@.len() > 0,
                first == base@[0],
                self.code_bytes == old(self).code_bytes,
                with_run(old(self)@.map, lo, hi, base@, 0) == with_run(
                    self@.map,
                    lo,
                    hi,
                    base@,
                    n as int,
                ),
            decreases hi - lo + 1 - n,
        {
            if self.is_full() {
                return;
            }
            let c: char = match char::from_u32(first as u32 + n) {
                Some(c) => c,
                None => REPLACEMENT,
            };
            let mut text: String = String::new();
            text.push(c);
            let rest: String = string_of(base.as_slice(), 1, base.len());
            text.push_str(rest.as_str());
            assert(text@ =~= seq![char_after(base@[0], n as int)] + base@.skip(1));
            self.insert(lo + n, text);
            n += 1;
        }
    }

    fn add_list(&mut self, lo: u32, items: &Vec<Obj>)
        ensures
            final(self).code_bytes == old(self).code_bytes,
            final(self)@.map == with_list(old(self)@.map, lo, items_view(items@), 0),
    {
        proof {
            lemma_items_view(items@);
        }
        let ghost v = items_view(items@);
        let mut k: usize = 0;
        while k < items.len()
            invariant
                k <= items.len(),
                v == items_view(items@),
                v.len() == items@.len(),
                forall|i: int| 0 <= i < items@.len() ==> (#[trigger] v[i]) == items@[i]@,
                self.code_bytes == old(self).code_bytes,
                with_list(old(self)@.map, lo, v, 0) == with_list(self@.map, lo, v, k as int),
            decreases items.len() - k,
        {
            assert(v[k as int] == items@[k as int]@);
            // The codes of a list can run past the last one.
            if k > (u32::MAX - lo) as usize || self.is_full() {
                return;
            }
            match &items[k] {
                Obj::Str(s) => {
                    let text: String = decode_utf16be(s.as_slice());
                    self.insert(lo + k as u32, text);
                },
                _ => {},
            }
            k += 1;
        }
    }

    fn add_range(&mut self, lo: u32, hi: u32, dst: &Obj)
        ensures
            final(self).code_bytes == old(self).code_bytes,
            final(self)@.map == with_range(old(self)@.map, lo, hi, dst@),
    {
        // A range of 2^32 would hang; real ranges are tiny.
        if hi < lo || hi - lo > 0xFFFF {
            return;
        }
        match dst {
            Obj::Str(start) => {
                let base: String = decode_utf16be(start.as_slice());
                let chars: Vec<char> = chars_of(base.as_str());
                if chars.len() > 0 {
                    self.add_run(lo, hi, &chars);
                }
            },
            Obj::Array(items) => {
                self.add_list(lo, items);
            },
            _ => {},
        }
    }

    fn add_ranges(&mut self, p: &Vec<Obj>)
        ensures
            final(self)@ == with_ranges(old(self)@, items_view(p@), 0),
    {
        proof {
            lemma_items_view(p@);
        }
        let ghost v = items_view(p@);
        let mut k: usize = 0;
        while p.len() - k >= 3
            invariant
                k <= p.len(),
                v == items_view(p@),
                v.len() == p@.len(),
                forall|i: int| 0 <= i < p@.len() ==> (#[trigger] v[i]) == p@[i]@,
                with_ranges(old(self)@, v, 0) == with_ranges(self@, v, k as int),
            decreases p.len() - k,
        {
            assert(v[k as int] == p@[k as int]@);
            assert(v[k + 1] == p@[k + 1]@);
            assert(v[k + 2] == p@[k + 2]@);
            match (&p[k], &p[k + 1]) {
                (Obj::Str(lo), Obj::Str(hi)) => {
                    if self.is_full() {
                        return;
                    }
                    let ghost before = self@;
                    self.code_bytes = wider(self.code_bytes, lo.len());
                    self.add_range(be_code(lo.as_slice()), be_code(hi.as_slice()), &p[k + 2]);
                    assert(self@ =~= CMapView {
                        map: with_range(before.map, code_of(lo@), code_of(hi@), v[k + 2]),
                        code_bytes: widened(before.code_bytes, lo@.len() as int),
                    });
                },
                _ => {},
            }
            k = k + 3;
        }
    }

    /// Parse the `bfchar` and `bfrange` sections.
    pub fn parse(data: &[u8]) -> (r: CMap)
        ensures
            r@ == cmap_of(data@),
            r@.map.len() <= MAX_ENTRIES,
            1 <= r.code_bytes <= 4,
    {
        let mut out: CMap = CMap { map: HashMap::new(), code_bytes: 1 };
        let mut lex: Lexer<'_> = Lexer::new(data);
        let mut pending: Vec<Obj> = Vec::new();
        assert(out@ =~= CMapView { map: Map::empty(), code_bytes: 1 });
        loop
            invariant
                lex.wf(),
                lex.buf == data,
                cmap_of(data@) == map_from(data@, lex.pos as int, items_view(pending@), out@),
            decreases data@.len() - lex.pos,
        {
            proof {
                lemma_token_at(data@, lex.pos as int);
            }
            match next_token(&mut lex) {
                Token::Operand(o) => {
                    proof {
                        lemma_items_push(pending@, o);
                        lemma_items_view(pending@);
                    }
                    if pending.len() < MAX_PENDING {
                        pending.push(o);
                    }
                },
                Token::Word(word) => {
                    let chars: bool = bytes_are(word, "endbfchar");
                    let ranges: bool = bytes_are(word, "endbfrange");
                    if chars {
                        out.add_chars(&pending);
                    } else if ranges {
                        out.add_ranges(&pending);
                    }
                    if chars || ranges || bytes_are(word, "beginbfchar") || bytes_are(
                        word,
                        "beginbfrange",
                    ) {
                        pending.clear();
                        assert(items_view(pending@) =~= Seq::empty());
                    }
                },
                Token::Junk => {},
                Token::End => {
                    proof {
                        maps_stay_within_their_size(data@);
                    }
                    return out;
                },
            }
        }
    }

    /// Decode a show-string's bytes.
    pub fn decode(&self, bytes: &[u8]) -> (r: String)
        ensures
            r@ == decode_from(self@, bytes@, 0, Seq::empty()),
    {
        let width: usize = if self.code_bytes < 1 {
            1
        } else if self.code_bytes > 4 {
            4
        } else {
            self.code_bytes
        };
        let mut out: String = String::new();
        let mut i: usize = 0;
        while i < bytes.len()
            invariant
                i <= bytes.len(),
                width == width_of(self@.code_bytes),
                decode_from(self@, bytes@, 0, Seq::empty()) == decode_from(
                    self@,
                    bytes@,
                    i as int,
                    out@,
                ),
            decreases bytes.len() - i,
        {
            let j: usize = if width <= bytes.len() - i {
                i + width
            } else {
                bytes.len()
            };
            let code: u32 = code_at(bytes, i, j);
            match self.map.get(&code) {
                Some(text) => {
                    out.push_str(text.as_str());
                },
                None => {
                    if width == 1 {
                        out.push(win_ansi(bytes[i]));
                    }
                },
            }
            i = j;
        }
        out
    }
}

proof fn lemma_full(m: CMapView, p: Seq<ObjView>, k: int)
    requires
        m.map.len() >= MAX_ENTRIES,
    ensures
        with_chars(m, p, k) == m,
        with_ranges(m, p, k) == m,
    decreases p.len() - k,
{
    if 0 <= k && k + 1 < p.len() {
        lemma_full(m, p, k + 2);
    }
    if 0 <= k && k + 2 < p.len() {
        lemma_full(m, p, k + 3);
    }
}

/// A map that has as many entries as it may have stays as it is, whatever sections follow.
pub proof fn a_full_map_grows_no_further(s: Seq<u8>, i: int, p: Seq<ObjView>, m: CMapView)
    requires
        m.map.len() >= MAX_ENTRIES,
    ensures
        map_from(s, i, p, m) == m,
    decreases s.len() - i,
{
    let t = token_at(s, i);
    if 0 <= i <= s.len() && i < t.1 <= s.len() {
        lemma_full(m, p, 0);
        match t.0 {
            TokenView::Operand(o) => {
                let q = if p.len() < MAX_PENDING {
                    p.push(o)
                } else {
                    p
                };
                a_full_map_grows_no_further(s, t.1, q, m);
            },
            TokenView::Word(w) => {
                let q = if is_section(w) {
                    Seq::empty()
                } else {
                    p
                };
                a_full_map_grows_no_further(s, t.1, q, m);
            },
            TokenView::Junk => a_full_map_grows_no_further(s, t.1, p, m),
            TokenView::End => {},
        }
    }
}

/// The map is no larger than it may be, and its codes take one to four bytes.
pub open spec fn bounded(m: CMapView) -> bool {
    &&& m.map.dom().finite()
    &&& m.map.len() <= MAX_ENTRIES
    &&& 1 <= m.code_bytes <= 4
}

proof fn lemma_run(m: Map<u32, Seq<char>>, lo: u32, hi: u32, text: Seq<char>, n: int)
    requires
        m.dom().finite(),
        m.len() <= MAX_ENTRIES,
    ensures
        with_run(m, lo, hi, text, n).dom().finite(),
        with_run(m, lo, hi, text, n).len() <= MAX_ENTRIES,
    decreases hi - lo + 1 - n,
{
    if 0 <= n <= hi - lo && m.len() < MAX_ENTRIES {
        lemma_run(
            m.insert((lo + n) as u32, seq![char_after(text[0], n)] + text.skip(1)),
            lo,
            hi,
            text,
            n + 1,
        );
    }
}

proof fn lemma_list(m: Map<u32, Seq<char>>, lo: u32, items: Seq<ObjView>, k: int)
    requires
        m.dom().finite(),
        m.len() <= MAX_ENTRIES,
    ensures
        with_list(m, lo, items, k).dom().finite(),
        with_list(m, lo, items, k).len() <= MAX_ENTRIES,
    decreases items.len() - k,
{
    if 0 <= k < items.len() && lo + k <= u32::MAX && m.len() < MAX_ENTRIES {
        match items[k] {
            ObjView::Str(s) => lemma_list(
                m.insert((lo + k) as u32, entry_text(s)),
                lo,
                items,
                k + 1,
            ),
            _ => lemma_list(m, lo, items, k + 1),
        }
    }
}

proof fn lemma_chars_bounded(m: CMapView, p: Seq<ObjView>, k: int)
    requires
        bounded(m),
    ensures
        bounded(with_chars(m, p, k)),
    decreases p.len() - k,
{
    if 0 <= k && k + 1 < p.len() {
        match (p[k], p[k + 1]) {
            (ObjView::Str(src), ObjView::Str(dst)) => if m.map.len() < MAX_ENTRIES {
                lemma_chars_bounded(
                    CMapView {
                        map: m.map.insert(code_of(src), entry_text(dst)),
                        code_bytes: widened(m.code_bytes, src.len() as int),
                    },
                    p,
                    k + 2,
                );
            },
            _ => lemma_chars_bounded(m, p, k + 2),
        }
    }
}

proof fn lemma_ranges_bounded(m: CMapView, p: Seq<ObjView>, k: int)
    requires
        bounded(m),
    ensures
        bounded(with_ranges(m, p, k)),
    decreases p.len() - k,
{
    if 0 <= k && k + 2 < p.len() {
        match (p[k], p[k + 1]) {
            (ObjView::Str(lo), ObjView::Str(hi)) => if m.map.len() < MAX_ENTRIES {
                match p[k + 2] {
                    ObjView::Str(start) => lemma_run(
                        m.map,
                        code_of(lo),
                        code_of(hi),
                        entry_text(start),
                        0,
                    ),
                    ObjView::Array(items) => lemma_list(m.map, code_of(lo), items, 0),
                    _ => {},
                }
                lemma_ranges_bounded(
                    CMapView {
                        map: with_range(m.map, code_of(lo), code_of(hi), p[k + 2]),
                        code_bytes: widened(m.code_bytes, lo.len() as int),
                    },
                    p,
                    k + 3,
                );
            },
            _ => lemma_ranges_bounded(m, p, k + 3),
        }
    }
}

proof fn lemma_map_bounded(s: Seq<u8>, i: int, p: Seq<ObjView>, m: CMapView)
    requires
        bounded(m),
    ensures
        bounded(map_from(s, i, p, m)),
    decreases s.len() - i,
{
    let t = token_at(s, i);
    if 0 <= i <= s.len() && i < t.1 <= s.len() {
        match t.0 {
            TokenView::Operand(o) => {
                let q = if p.len() < MAX_PENDING {
                    p.push(o)
                } else {
                    p
                };
                lemma_map_bounded(s, t.1, q, m);
            },
            TokenView::Word(w) => {
                let q = if is_section(w) {
                    Seq::empty()
                } else {
                    p
                };
                lemma_chars_bounded(m, p, 0);
                lemma_ranges_bounded(m, p, 0);
                lemma_map_bounded(s, t.1, q, after_word(m, w, p));
            },
            TokenView::Junk => lemma_map_bounded(s, t.1, p, m),
            TokenView::End => {},
        }
    }
}

/// Whatever a source says, its map has no more entries than a map may have, and its codes take one
/// to four bytes.
pub proof fn maps_stay_within_their_size(s: Seq<u8>)
    ensures
        cmap_of(s).map.len() <= MAX_ENTRIES,
        1 <= cmap_of(s).code_bytes <= 4,
{
    lemma_map_bounded(s, 0, Seq::empty(), CMapView { map: Map::empty(), code_bytes: 1 });
}

proof fn lemma_run_codes(m: Map<u32, Seq<char>>, lo: u32, hi: u32, text: Seq<char>, n: int, c: u32)
    requires
        0 <= n,
        with_run(m, lo, hi, text, n).contains_key(c),
    ensures
        m.contains_key(c) || lo <= c <= hi,
    decreases hi - lo + 1 - n,
{
    if n <= hi - lo && m.len() < MAX_ENTRIES {
        lemma_run_codes(
            m.insert((lo + n) as u32, seq![char_after(text[0], n)] + text.skip(1)),
            lo,
            hi,
            text,
            n + 1,
            c,
        );
    }
}

/// A range adds entries for no codes but its own.
pub proof fn a_range_adds_only_its_codes(
    m: Map<u32, Seq<char>>,
    lo: u32,
    hi: u32,
    start: Seq<u8>,
    c: u32,
)
    requires
        with_range(m, lo, hi, ObjView::Str(start)).contains_key(c),
    ensures
        m.contains_key(c) || lo <= c <= hi,
{
    if lo <= hi <= lo + 0xFFFF && entry_text(start).len() > 0 {
        lemma_run_codes(m, lo, hi, entry_text(start), 0, c);
    }
}

} // verus!
