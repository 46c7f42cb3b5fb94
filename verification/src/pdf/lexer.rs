//! A cursor over PDF syntax.
//!
//! Every method is total: each read is bounds-checked, each loop is bounded, and malformed input
//! yields a shorter result.

use vstd::prelude::*;

use crate::bytes::{bytes_are, find_from, lemma_first_at, part, stands_at, utf8};
use crate::pdf::num::{
    is_in_digits, leading_value, lemma_digits_end, parse_number, scan_digits, Num,
};
use crate::pdf::object::{
    dict_view, get, items_view, lemma_dict_push, lemma_items_push, opt_view, Dict, Obj,
};
use crate::pdf::syntax::{
    at, body_end, declared_end, entries_from, escape, hex_at, hex_bytes, hex_digits, hex_value,
    is_delim, is_regular, is_ws, items_from, lemma_body_end, lemma_entry_step, lemma_items_step,
    lemma_line_end, lemma_next_of, lemma_object_at, lemma_skip, line_end, literal_from, name_from,
    next_of, object_at, octal_at, paired, past_junk, ref_tail, skip, u32_text, with_stream,
    word_end, word_object, MAX_DEPTH,
};

verus! {

/// A position in a buffer of PDF syntax.
pub struct Lexer<'a> {
    pub buf: &'a [u8],
    pub pos: usize,
}

pub fn ws_byte(b: u8) -> (r: bool)
    ensures
        r == is_ws(b),
{
    b == 0 || b == 0x09 || b == 0x0a || b == 0x0c || b == 0x0d || b == 0x20
}

pub fn delim_byte(b: u8) -> (r: bool)
    ensures
        r == is_delim(b),
{
    b == 0x28 || b == 0x29 || b == 0x3c || b == 0x3e || b == 0x5b || b == 0x5d || b == 0x7b || b
        == 0x7d || b == 0x2f || b == 0x25
}

pub fn regular_byte(b: u8) -> (r: bool)
    ensures
        r == is_regular(b),
{
    !ws_byte(b) && !delim_byte(b)
}

/// The value of a hex digit.
pub fn hex_val(b: u8) -> (r: Option<u8>)
    ensures
        r == hex_value(b),
        r matches Some(v) ==> v < 16,
{
    if b >= 0x30 && b <= 0x39 {
        Some(b - 0x30)
    } else if b >= 0x61 && b <= 0x66 {
        Some(b - 0x61 + 10)
    } else if b >= 0x41 && b <= 0x46 {
        Some(b - 0x41 + 10)
    } else {
        None
    }
}

fn hex_val_at(s: &[u8], i: usize) -> (r: Option<u8>)
    ensures
        r == hex_at(s@, i as int),
        r matches Some(v) ==> v < 16,
{
    if i < s.len() {
        hex_val(s[i])
    } else {
        None
    }
}

fn byte_at(s: &[u8], i: usize, b: u8) -> (r: bool)
    ensures
        r == at(s@, i as int, b),
{
    i < s.len() && s[i] == b
}

fn octal_byte_at(s: &[u8], i: usize) -> (r: bool)
    ensures
        r == octal_at(s@, i as int),
{
    i < s.len() && s[i] >= 0x30 && s[i] <= 0x37
}

/// Whether a word is an unsigned 32-bit decimal number.
fn is_u32_text(w: &[u8]) -> (r: bool)
    ensures
        r == u32_text(w@),
{
    let o: usize = if w.len() > 0 && w[0] == 0x2b {
        1
    } else {
        0
    };
    if o >= w.len() || scan_digits(w, o) != w.len() {
        return false;
    }
    proof {
        lemma_digits_end(w@, o as int);
    }
    let ds: Vec<u8> = vstd::slice::slice_to_vec(part(w, o, w.len()));
    leading_value(&ds, (w.len() - o) as i128, u32::MAX as i128 + 1) <= u32::MAX as i128
}

/// The bytes that the hex digits from `start` on stand for, and the position past them.
pub fn read_hex(s: &[u8], start: usize) -> (r: (Vec<u8>, usize))
    requires
        start <= s.len(),
    ensures
        r.0@ == hex_bytes(s@, start as int),
        r.1 == (if next_of(s@, start as int, 0x3e) < s@.len() {
            next_of(s@, start as int, 0x3e) + 1
        } else {
            next_of(s@, start as int, 0x3e)
        }),
        start <= r.1 <= s.len(),
{
    let mut out: Vec<u8> = Vec::new();
    let mut hi: Option<u8> = None;
    let mut i: usize = start;
    proof {
        lemma_next_of(s@, start as int, 0x3e);
    }
    let ghost stop = next_of(s@, start as int, 0x3e);
    while i < s.len() && s[i] != 0x3e
        invariant
            start <= i <= s.len(),
            stop == next_of(s@, start as int, 0x3e),
            stop == next_of(s@, i as int, 0x3e),
            i <= stop <= s.len(),
            ({
                let ds = hex_digits(s@, start as int, i as int);
                &&& forall|k: int| 0 <= k < ds.len() ==> #[trigger] ds[k] < 16
                &&& out@.len() == ds.len() / 2
                &&& forall|k: int|
                    0 <= k < out@.len() ==> #[trigger] out@[k] == (ds[2 * k] * 16 + ds[2 * k + 1])
                &&& match hi {
                    Some(h) => ds.len() % 2 == 1 && ds.last() == h,
                    None => ds.len() % 2 == 0,
                }
            }),
        decreases s.len() - i,
    {
        let ghost ds = hex_digits(s@, start as int, i as int);
        match hex_val(s[i]) {
            Some(v) => {
                match hi {
                    None => {
                        hi = Some(v);
                    },
                    Some(h) => {
                        assert(h < 16);
                        out.push(h * 16 + v);
                        hi = None;
                    },
                }
            },
            None => {},
        }
        i += 1;
        proof {
            lemma_next_of(s@, i as int, 0x3e);
        }
    }
    let ghost ds = hex_digits(s@, start as int, i as int);
    match hi {
        Some(h) => {
            assert(h < 16);
            out.push(h * 16);
        },
        None => {},
    }
    assert(i == stop);
    assert(out@ =~= paired(ds));
    let end: usize = if i < s.len() {
        i + 1
    } else {
        i
    };
    (out, end)
}

impl<'a> Lexer<'a> {
    /// The position is in the buffer or at its end.
    pub open spec fn wf(&self) -> bool {
        self.pos <= self.buf.len()
    }

    /// At the start of `buf`.
    pub fn new(buf: &'a [u8]) -> (r: Lexer<'a>)
        ensures
            r.wf(),
            r.buf == buf,
            r.pos == 0,
    {
        Lexer { buf, pos: 0 }
    }

    /// At `pos`, or at the end where that is further.
    pub fn at(buf: &'a [u8], pos: usize) -> (r: Lexer<'a>)
        ensures
            r.wf(),
            r.buf == buf,
            r.pos == (if pos <= buf@.len() {
                pos as int
            } else {
                buf@.len() as int
            }),
    {
        Lexer {
            buf,
            pos: if pos <= buf.len() {
                pos
            } else {
                buf.len()
            },
        }
    }

    /// Skip whitespace and `%` comments.
    pub fn skip_ws(&mut self)
        requires
            old(self).wf(),
        ensures
            final(self).wf(),
            final(self).buf == old(self).buf,
            final(self).pos == skip(old(self).buf@, old(self).pos as int),
    {
        while self.pos < self.buf.len()
            invariant_except_break
                self.wf(),
                self.buf == old(self).buf,
                skip(old(self).buf@, old(self).pos as int) == skip(self.buf@, self.pos as int),
            ensures
                self.wf(),
                self.buf == old(self).buf,
                self.pos == skip(old(self).buf@, old(self).pos as int),
            decreases self.buf.len() - self.pos,
        {
            let b: u8 = self.buf[self.pos];
            if ws_byte(b) {
                self.pos = self.pos + 1;
            } else if b == 0x25 {
                let ghost from = self.pos as int;
                proof {
                    lemma_line_end(self.buf@, from);
                }
                let mut done: bool = false;
                while !done && self.pos < self.buf.len()
                    invariant
                        self.wf(),
                        self.buf == old(self).buf,
                        from <= self.pos,
                        0 <= from < self.buf@.len(),
                        done ==> self.pos == line_end(self.buf@, from) && from < self.pos,
                        !done ==> line_end(self.buf@, from) == line_end(
                            self.buf@,
                            self.pos as int,
                        ),
                    decreases self.buf.len() - self.pos,
                {
                    let c: u8 = self.buf[self.pos];
                    self.pos = self.pos + 1;
                    if c == 0x0a || c == 0x0d {
                        done = true;
                    }
                }
            } else {
                break;
            }
        }
    }

    /// Read the next bare keyword (an operator, `obj`, `stream`, `true`, ..), if one is here.
    pub fn keyword(&mut self) -> (r: Option<&'a [u8]>)
        requires
            old(self).wf(),
        ensures
            final(self).wf(),
            final(self).buf == old(self).buf,
            ({
                let s = old(self).buf@;
                let a = skip(s, old(self).pos as int);
                let e = word_end(s, a);
                &&& final(self).pos == e
                &&& match r {
                    Some(w) => a < e && w@ == s.subrange(a, e),
                    None => a == e,
                }
            }),
    {
        self.skip_ws();
        let start: usize = self.pos;
        while self.pos < self.buf.len() && regular_byte(self.buf[self.pos])
            invariant
                self.wf(),
                self.buf == old(self).buf,
                start <= self.pos,
                word_end(self.buf@, start as int) == word_end(self.buf@, self.pos as int),
            decreases self.buf.len() - self.pos,
        {
            self.pos = self.pos + 1;
        }
        if self.pos > start {
            Some(part(self.buf, start, self.pos))
        } else {
            None
        }
    }

    /// Parse one object. There is none at the end of input or on a delimiter that cannot start
    /// one (`]`, `>>`), which is how array and dictionary parsing finds its terminator.
    pub fn object(&mut self) -> (r: Option<Obj>)
        requires
            old(self).wf(),
        ensures
            final(self).wf(),
            final(self).buf == old(self).buf,
            final(self).pos >= old(self).pos,
            (opt_view(r), final(self).pos as int) == object_at(
                old(self).buf@,
                old(self).pos as int,
                0,
            ),
    {
        self.object_at_depth(0)
    }

    /// Step over input that is not an object: a whole keyword, or one delimiter.
    fn skip_unparseable(&mut self)
        requires
            old(self).wf(),
            old(self).pos < old(self).buf@.len(),
            skip(old(self).buf@, old(self).pos as int) == old(self).pos,
        ensures
            final(self).wf(),
            final(self).buf == old(self).buf,
            final(self).pos == past_junk(old(self).buf@, old(self).pos as int),
    {
        if self.keyword().is_none() {
            self.pos = self.pos + 1;
        }
    }

    fn object_at_depth(&mut self, depth: usize) -> (r: Option<Obj>)
        requires
            old(self).wf(),
            depth <= MAX_DEPTH + 1,
        ensures
            final(self).wf(),
            final(self).buf == old(self).buf,
            final(self).pos >= old(self).pos,
            (opt_view(r), final(self).pos as int) == object_at(
                old(self).buf@,
                old(self).pos as int,
                depth as int,
            ),
        decreases MAX_DEPTH + 2 - depth, 1int,
    {
        if depth > MAX_DEPTH {
            return None;
        }
        proof {
            lemma_object_at(self.buf@, self.pos as int, depth as int);
            lemma_skip(self.buf@, self.pos as int);
        }
        self.skip_ws();
        if self.pos >= self.buf.len() {
            return None;
        }
        let b: u8 = self.buf[self.pos];
        if b == 0x2f {
            let n: String = self.name();
            Some(Obj::Name(n))
        } else if b == 0x28 {
            let l: Vec<u8> = self.literal_string();
            Some(Obj::Str(l))
        } else if b == 0x5b {
            self.pos = self.pos + 1;
            let items: Vec<Obj> = self.array_body(depth);
            Some(Obj::Array(items))
        } else if b == 0x3c {
            if byte_at(self.buf, self.pos + 1, 0x3c) {
                self.pos = self.pos + 2;
                let dict: Dict = self.dict_body(depth);
                Some(self.maybe_stream(dict))
            } else {
                let h: Vec<u8> = self.hex_string();
                Some(Obj::Str(h))
            }
        } else if delim_byte(b) {
            None
        } else {
            self.number_or_keyword()
        }
    }

    /// Items up to `]` (the `[` is already consumed).
    fn array_body(&mut self, depth: usize) -> (r: Vec<Obj>)
        requires
            old(self).wf(),
            depth <= MAX_DEPTH,
        ensures
            final(self).wf(),
            final(self).buf == old(self).buf,
            (items_view(r@), final(self).pos as int) == items_from(
                old(self).buf@,
                old(self).pos as int,
                depth as int,
                Seq::empty(),
            ),
        decreases MAX_DEPTH + 2 - depth, 0int,
    {
        let mut items: Vec<Obj> = Vec::new();
        let ghost s = self.buf@;
        loop
            invariant
                self.wf(),
                self.buf == old(self).buf,
                s == self.buf@,
                depth <= MAX_DEPTH,
                items_from(s, old(self).pos as int, depth as int, Seq::empty()) == items_from(
                    s,
                    self.pos as int,
                    depth as int,
                    items_view(items@),
                ),
            decreases s.len() - self.pos,
        {
            let ghost i = self.pos as int;
            proof {
                lemma_skip(s, i);
                if skip(s, i) < s.len() {
                    lemma_items_step(s, i, depth + 1);
                }
            }
            self.skip_ws();
            if self.pos >= self.buf.len() {
                return items;
            }
            if self.buf[self.pos] == 0x5d {
                self.pos = self.pos + 1;
                return items;
            }
            match self.object_at_depth(depth + 1) {
                Some(o) => {
                    proof {
                        lemma_items_push(items@, o);
                    }
                    items.push(o);
                },
                None => {
                    self.skip_unparseable();
                },
            }
        }
    }

    /// Key/value pairs up to `>>` (the `<<` is already consumed).
    fn dict_body(&mut self, depth: usize) -> (r: Dict)
        requires
            old(self).wf(),
            depth <= MAX_DEPTH,
        ensures
            final(self).wf(),
            final(self).buf == old(self).buf,
            (dict_view(r@), final(self).pos as int) == entries_from(
                old(self).buf@,
                old(self).pos as int,
                depth as int,
                Seq::empty(),
            ),
        decreases MAX_DEPTH + 2 - depth, 0int,
    {
        let mut dict: Dict = Vec::new();
        let ghost s = self.buf@;
        loop
            invariant
                self.wf(),
                self.buf == old(self).buf,
                s == self.buf@,
                depth <= MAX_DEPTH,
                entries_from(s, old(self).pos as int, depth as int, Seq::empty()) == entries_from(
                    s,
                    self.pos as int,
                    depth as int,
                    dict_view(dict@),
                ),
            decreases s.len() - self.pos,
        {
            let ghost i = self.pos as int;
            proof {
                lemma_skip(s, i);
                if skip(s, i) < s.len() {
                    lemma_items_step(s, i, depth + 1);
                    lemma_entry_step(s, i, depth + 1);
                }
            }
            self.skip_ws();
            if self.pos >= self.buf.len() {
                return dict;
            }
            let b: u8 = self.buf[self.pos];
            if b == 0x3e {
                // `>>`, or a stray `>` to step over.
                self.pos = if byte_at(self.buf, self.pos + 1, 0x3e) {
                    self.pos + 2
                } else {
                    self.pos + 1
                };
                return dict;
            }
            if b == 0x2f {
                let key: String = self.name();
                let value: Obj = match self.object_at_depth(depth + 1) {
                    Some(o) => o,
                    None => Obj::Null,
                };
                proof {
                    lemma_dict_push(dict@, (key, value));
                }
                dict.push((key, value));
            } else {
                // A value where a key belongs: drop it and go on.
                if self.object_at_depth(depth + 1).is_none() {
                    self.skip_unparseable();
                }
            }
        }
    }

    /// The end of the stream body that `dict` declares, where `endstream` follows it.
    fn declared_length(&self, start: usize, dict: &Dict) -> (r: Option<usize>)
        requires
            start <= self.buf@.len(),
            0 < start,
        ensures
            match r {
                Some(e) => declared_end(self.buf@, start as int, dict_view(dict@)) == Some(e as int)
                    && start <= e <= self.buf@.len(),
                None => declared_end(self.buf@, start as int, dict_view(dict@)) is None,
            },
    {
        match get(dict, "Length") {
            Some(Obj::Number(n)) => {
                if n.units < 0 {
                    return None;
                }
                let len: usize = n.as_usize();
                if len > self.buf.len() - start {
                    return None;
                }
                let mut probe: Lexer<'a> = Lexer::at(self.buf, start + len);
                probe.skip_ws();
                if stands_at(self.buf, "endstream".as_bytes(), probe.pos) {
                    Some(start + len)
                } else {
                    None
                }
            },
            _ => None,
        }
    }

    /// After a dictionary, consume a `stream .. endstream` body if one follows.
    fn maybe_stream(&mut self, dict: Dict) -> (r: Obj)
        requires
            old(self).wf(),
        ensures
            final(self).wf(),
            final(self).buf == old(self).buf,
            (r@, final(self).pos as int) == with_stream(
                old(self).buf@,
                old(self).pos as int,
                dict_view(dict@),
            ),
    {
        let ghost s = self.buf@;
        let save: usize = self.pos;
        self.skip_ws();
        if !stands_at(self.buf, "stream".as_bytes(), self.pos) {
            self.pos = save;
            return Obj::Dict(dict);
        }
        proof {
            reveal_strlit("stream");
            reveal_strlit("endstream");
            vstd::utf8::is_ascii_chars_encode_utf8("stream"@);
            vstd::utf8::is_ascii_chars_encode_utf8("endstream"@);
        }
        self.pos = self.pos + 6;
        // The keyword is followed by CRLF or LF; a bare CR is tolerated.
        if byte_at(self.buf, self.pos, 0x0d) {
            self.pos = self.pos + 1;
        }
        if byte_at(self.buf, self.pos, 0x0a) {
            self.pos = self.pos + 1;
        }
        let start: usize = self.pos;
        proof {
            lemma_first_at(s, utf8("endstream"@), start as int);
            lemma_body_end(s, start as int, dict_view(dict@));
        }
        // Prefer the declared length, but only where it lands on `endstream`.
        let end: usize = match self.declared_length(start, &dict) {
            Some(e) => e,
            None => match find_from(self.buf, "endstream".as_bytes(), start) {
                Some(at_end) => {
                    // Back off the line break that was put before `endstream`.
                    let mut e: usize = at_end;
                    if e > start && self.buf[e - 1] == 0x0a {
                        e = e - 1;
                    }
                    if e > start && self.buf[e - 1] == 0x0d {
                        e = e - 1;
                    }
                    e
                },
                None => self.buf.len(),
            },
        };
        assert(end == body_end(s, start as int, dict_view(dict@)));
        let data: Vec<u8> = vstd::slice::slice_to_vec(part(self.buf, start, end));
        proof {
            lemma_first_at(s, utf8("endstream"@), end as int);
        }
        self.pos = match find_from(self.buf, "endstream".as_bytes(), end) {
            Some(k) => k + 9,
            None => self.buf.len(),
        };
        Obj::Stream { dict, data }
    }

    /// `/Name`, with `#xx` hex escapes.
    fn name(&mut self) -> (r: String)
        requires
            old(self).wf(),
            at(old(self).buf@, old(self).pos as int, 0x2f),
        ensures
            final(self).wf(),
            final(self).buf == old(self).buf,
            (r@, final(self).pos as int) == name_from(
                old(self).buf@,
                old(self).pos + 1,
                Seq::empty(),
            ),
    {
        self.pos = self.pos + 1;
        let mut out: String = String::new();
        while self.pos < self.buf.len() && regular_byte(self.buf[self.pos])
            invariant
                self.wf(),
                self.buf == old(self).buf,
                name_from(self.buf@, old(self).pos + 1, Seq::empty()) == name_from(
                    self.buf@,
                    self.pos as int,
                    out@,
                ),
            decreases self.buf.len() - self.pos,
        {
            let b: u8 = self.buf[self.pos];
            let hi: Option<u8> = hex_val_at(self.buf, self.pos + 1);
            let mut code: u8 = b;
            let mut width: usize = 1;
            if b == 0x23 && self.buf.len() - self.pos > 2 {
                match (hi, hex_val_at(self.buf, self.pos + 2)) {
                    (Some(h), Some(l)) => {
                        code = h * 16 + l;
                        width = 3;
                    },
                    _ => {},
                }
            }
            self.pos = self.pos + width;
            out.push(code as char);
        }
        out
    }

    /// `(literal string)` with nested parentheses and backslash escapes.
    fn literal_string(&mut self) -> (r: Vec<u8>)
        requires
            old(self).wf(),
            at(old(self).buf@, old(self).pos as int, 0x28),
        ensures
            final(self).wf(),
            final(self).buf == old(self).buf,
            (r@, final(self).pos as int) == literal_from(
                old(self).buf@,
                old(self).pos + 1,
                1,
                Seq::empty(),
            ),
    {
        let mut out: Vec<u8> = Vec::new();
        self.pos = self.pos + 1;
        let mut depth: usize = 1;
        while self.pos < self.buf.len()
            invariant
                self.wf(),
                self.buf == old(self).buf,
                1 <= depth <= self.pos,
                literal_from(self.buf@, old(self).pos + 1, 1, Seq::empty()) == literal_from(
                    self.buf@,
                    self.pos as int,
                    depth as int,
                    out@,
                ),
            decreases self.buf.len() - self.pos,
        {
            let b: u8 = self.buf[self.pos];
            self.pos = self.pos + 1;
            if b == 0x5c {
                if self.pos >= self.buf.len() {
                    return out;
                }
                self.escape_into(&mut out);
            } else if b == 0x28 {
                depth = depth + 1;
                out.push(b);
            } else if b == 0x29 {
                depth = depth - 1;
                if depth == 0 {
                    return out;
                }
                out.push(b);
            } else {
                out.push(b);
            }
        }
        out
    }

    /// One escape, past its backslash.
    fn escape_into(&mut self, out: &mut Vec<u8>)
        requires
            old(self).wf(),
            old(self).pos < old(self).buf@.len(),
        ensures
            final(self).wf(),
            final(self).buf == old(self).buf,
            final(self).pos == escape(old(self).buf@, old(self).pos as int).1,
            final(self).pos > old(self).pos,
            final(out)@ == old(out)@ + escape(old(self).buf@, old(self).pos as int).0,
    {
        let e: u8 = self.buf[self.pos];
        self.pos = self.pos + 1;
        let ghost add = escape(self.buf@, self.pos - 1).0;
        if e == 0x6e {
            out.push(0x0a);
        } else if e == 0x72 {
            out.push(0x0d);
        } else if e == 0x74 {
            out.push(0x09);
        } else if e == 0x62 {
            out.push(0x08);
        } else if e == 0x66 {
            out.push(0x0c);
        } else if e == 0x0a {
            // A line continuation.
        } else if e == 0x0d {
            if byte_at(self.buf, self.pos, 0x0a) {
                self.pos = self.pos + 1;
            }
        } else if e >= 0x30 && e <= 0x37 {
            // Up to three octal digits.
            let mut v: u16 = (e - 0x30) as u16;
            if octal_byte_at(self.buf, self.pos) {
                v = v * 8 + (self.buf[self.pos] - 0x30) as u16;
                self.pos = self.pos + 1;
                if octal_byte_at(self.buf, self.pos) {
                    v = v * 8 + (self.buf[self.pos] - 0x30) as u16;
                    self.pos = self.pos + 1;
                }
            }
            out.push((v % 256) as u8);
        } else {
            out.push(e);
        }
        assert(out@ =~= old(out)@ + add);
    }

    /// `<48656c6c6f>`; an odd last digit is followed by a zero.
    fn hex_string(&mut self) -> (r: Vec<u8>)
        requires
            old(self).wf(),
            old(self).pos < old(self).buf@.len(),
        ensures
            final(self).wf(),
            final(self).buf == old(self).buf,
            r@ == hex_bytes(old(self).buf@, old(self).pos + 1),
            ({
                let e = next_of(old(self).buf@, old(self).pos + 1, 0x3e);
                final(self).pos == (if e < old(self).buf@.len() {
                    e + 1
                } else {
                    e
                })
            }),
    {
        let (out, end) = read_hex(self.buf, self.pos + 1);
        self.pos = end;
        out
    }

    /// A number, an `N G R` reference, or one of the bare keywords that are objects.
    fn number_or_keyword(&mut self) -> (r: Option<Obj>)
        requires
            old(self).wf(),
            skip(old(self).buf@, old(self).pos as int) == old(self).pos,
        ensures
            final(self).wf(),
            final(self).buf == old(self).buf,
            (opt_view(r), final(self).pos as int) == word_object(
                old(self).buf@,
                old(self).pos as int,
            ),
    {
        let save: usize = self.pos;
        let word: &'a [u8] = match self.keyword() {
            Some(w) => w,
            None => {
                return None;
            },
        };
        if bytes_are(word, "true") {
            return Some(Obj::Bool(true));
        }
        if bytes_are(word, "false") {
            return Some(Obj::Bool(false));
        }
        if bytes_are(word, "null") {
            return Some(Obj::Null);
        }
        let num: Num = match parse_number(word) {
            Some(n) => n,
            None => {
                // An operator, or `obj`/`endobj`. Rewind so that the caller can read it as a
                // keyword instead.
                self.pos = save;
                return None;
            },
        };
        // `N G R` needs two tokens of lookahead; on anything else, rewind to just past the number.
        if is_in_digits(word) && num.units >= 0 && num.is_whole() {
            let after_num: usize = self.pos;
            if self.reference_tail() {
                return Some(Obj::Ref(num.as_u32()));
            }
            self.pos = after_num;
        }
        Some(Obj::Number(num))
    }

    /// Whether the rest of a reference follows; if so, step past it.
    fn reference_tail(&mut self) -> (r: bool)
        requires
            old(self).wf(),
        ensures
            final(self).wf(),
            final(self).buf == old(self).buf,
            r == ref_tail(old(self).buf@, old(self).pos as int) is Some,
            r ==> ref_tail(old(self).buf@, old(self).pos as int) == Some(final(self).pos as int),
    {
        let gen: &'a [u8] = match self.keyword() {
            Some(w) => w,
            None => {
                return false;
            },
        };
        if !is_u32_text(gen) {
            return false;
        }
        let ghost s = self.buf@;
        let ghost ge = self.pos as int;
        match self.keyword() {
            Some(w) => {
                if w.len() == 1 && w[0] == 0x52 {
                    assert(w@ =~= seq![0x52u8]);
                    true
                } else {
                    assert(w@ != seq![0x52u8]) by {
                        if w@ == seq![0x52u8] {
                            assert(w@.len() == 1 && w@[0] == 0x52);
                        }
                    }
                    false
                }
            },
            None => {
                assert(s.subrange(skip(s, ge), skip(s, ge)).len() == 0);
                false
            },
        }
    }
}

} // verus!
