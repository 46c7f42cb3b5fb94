//! The text-showing operators of content streams.

use vstd::prelude::*;

use crate::bytes::{bytes_are, utf8};
use crate::pdf::cmap::{decode_from, CMap, CMapView, MAX_PENDING};
use crate::pdf::encoding::{decode_win_ansi, win_ansi_text};
use crate::pdf::lexer::Lexer;
use crate::pdf::num::{sum, sum_units, LIMIT};
use crate::pdf::object::{items_view, lemma_items_push, lemma_items_view, Obj, ObjView};
use crate::pdf::token::{lemma_token_at, next_token, token_at, Token, TokenView};
use crate::text::same;

verus! {

/// A `TJ` kerning adjustment below this many units reads as a word space: minus one hundred.
pub const KERN_SPACE: i128 = -100_000_000_000_000_000_000;

/// Vertical movement, in units, that counts as a new line: six tenths.
pub const LINE_EPSILON: i128 = 600_000_000_000_000_000;

/// The fonts of a page: resource names and character maps.
pub type Fonts = Vec<(String, CMap)>;

pub open spec fn fonts_view(f: Seq<(String, CMap)>) -> Seq<(Seq<char>, CMapView)> {
    f.map_values(|e: (String, CMap)| (e.0@, e.1@))
}

/// The character map of the first font under `name`, from the `k`th on.
pub open spec fn font_from(f: Seq<(Seq<char>, CMapView)>, name: Seq<char>, k: int) -> Option<
    CMapView,
>
    decreases f.len() - k,
{
    if k < 0 || k >= f.len() {
        None
    } else if f[k].0 == name {
        Some(f[k].1)
    } else {
        font_from(f, name, k + 1)
    }
}

/// Where text extraction stands.
pub struct TextState {
    pub out: Seq<char>,
    pub font: Option<CMapView>,
    pub leading: int,
    pub line_y: int,
    pub last_y: Option<int>,
}

/// At the start of a content stream.
pub open spec fn text_start() -> TextState {
    TextState { out: Seq::empty(), font: None, leading: 0, line_y: 0, last_y: None }
}

/// The text of a show-string.
pub open spec fn shown(s: Seq<u8>, font: Option<CMapView>) -> Seq<char> {
    match font {
        Some(m) => decode_from(m, s, 0, Seq::empty()),
        None => win_ansi_text(s),
    }
}

/// The last operand where it is a number, else zero; in units.
pub open spec fn last_number(p: Seq<ObjView>) -> int {
    if p.len() > 0 {
        match p.last() {
            ObjView::Number(n) => if n.wf() {
                n.units as int
            } else {
                0
            },
            _ => 0,
        }
    } else {
        0
    }
}

/// The last name among the first `k` operands.
pub open spec fn last_name(p: Seq<ObjView>, k: int) -> Option<Seq<char>>
    decreases k,
{
    if k <= 0 || k > p.len() {
        None
    } else {
        match p[k - 1] {
            ObjView::Name(n) => Some(n),
            _ => last_name(p, k - 1),
        }
    }
}

/// A line break where the baseline has moved since the last string was shown.
pub open spec fn on_line(t: TextState) -> TextState {
    let moved = match t.last_y {
        Some(prev) => t.line_y - prev > LINE_EPSILON || prev - t.line_y > LINE_EPSILON,
        None => false,
    };
    TextState {
        out: if moved {
            t.out.push('\n')
        } else {
            t.out
        },
        last_y: Some(t.line_y),
        ..t
    }
}

/// The last operand shown, where it is a string.
pub open spec fn show_last(t: TextState, p: Seq<ObjView>) -> TextState {
    if p.len() > 0 {
        match p.last() {
            ObjView::Str(s) => TextState { out: t.out + shown(s, t.font), ..t },
            _ => t,
        }
    } else {
        t
    }
}

/// The items of a `TJ` array shown, from the `k`th on, after `acc`: strings, and a space for each
/// wide gap.
pub open spec fn show_items(
    items: Seq<ObjView>,
    k: int,
    font: Option<CMapView>,
    acc: Seq<char>,
) -> Seq<char>
    decreases items.len() - k,
{
    if k < 0 || k >= items.len() {
        acc
    } else {
        match items[k] {
            ObjView::Str(s) => show_items(items, k + 1, font, acc + shown(s, font)),
            ObjView::Number(n) => show_items(
                items,
                k + 1,
                font,
                if n.units < KERN_SPACE {
                    acc.push(' ')
                } else {
                    acc
                },
            ),
            _ => show_items(items, k + 1, font, acc),
        }
    }
}

/// The last operand shown, where it is an array.
pub open spec fn show_array(t: TextState, p: Seq<ObjView>) -> TextState {
    if p.len() > 0 {
        match p.last() {
            ObjView::Array(items) => TextState { out: show_items(items, 0, t.font, t.out), ..t },
            _ => t,
        }
    } else {
        t
    }
}

/// After the operator `op` with operands `p`.
pub open spec fn operated(
    t: TextState,
    op: Seq<u8>,
    p: Seq<ObjView>,
    fonts: Seq<(Seq<char>, CMapView)>,
) -> TextState {
    if op == utf8("BT"@) {
        TextState { line_y: 0, last_y: None, ..t }
    } else if op == utf8("ET"@) {
        TextState { out: t.out.push('\n'), ..t }
    } else if op == utf8("Tf"@) {
        TextState {
            font: match last_name(p, p.len() as int) {
                Some(n) => font_from(fonts, n, 0),
                None => None,
            },
            ..t
        }
    } else if op == utf8("TL"@) {
        TextState { leading: last_number(p), ..t }
    } else if op == utf8("Td"@) {
        TextState { line_y: sum(t.line_y, last_number(p)), ..t }
    } else if op == utf8("TD"@) {
        TextState { leading: -last_number(p), line_y: sum(t.line_y, last_number(p)), ..t }
    } else if op == utf8("Tm"@) {
        TextState { line_y: last_number(p), ..t }
    } else if op == utf8("T*"@) {
        TextState { line_y: sum(t.line_y, -t.leading), ..t }
    } else if op == utf8("Tj"@) {
        show_last(on_line(t), p)
    } else if op == utf8("'"@) || op == utf8("\""@) {
        show_last(on_line(TextState { line_y: sum(t.line_y, -t.leading), ..t }), p)
    } else if op == utf8("TJ"@) {
        show_array(on_line(t), p)
    } else {
        t
    }
}

/// What a content stream shows from `i` on, with operands `p` pending.
pub open spec fn text_from(
    s: Seq<u8>,
    i: int,
    p: Seq<ObjView>,
    t: TextState,
    fonts: Seq<(Seq<char>, CMapView)>,
) -> Seq<char>
    decreases s.len() - i,
{
    let k = token_at(s, i);
    if i < 0 || i > s.len() || k.1 <= i || k.1 > s.len() {
        t.out
    } else {
        match k.0 {
            TokenView::Operand(o) => text_from(
                s,
                k.1,
                if p.len() < MAX_PENDING {
                    p.push(o)
                } else {
                    p
                },
                t,
                fonts,
            ),
            TokenView::Word(op) => text_from(
                s,
                k.1,
                Seq::empty(),
                operated(t, op, p, fonts),
                fonts,
            ),
            TokenView::Junk => text_from(s, k.1, p, t, fonts),
            TokenView::End => t.out,
        }
    }
}

/// The text that a content stream shows.
pub open spec fn content_text(s: Seq<u8>, fonts: Seq<(Seq<char>, CMapView)>) -> Seq<char> {
    text_from(s, 0, Seq::empty(), text_start(), fonts)
}

/// Decode one show-string through the current font's character map, or as WinAnsi.
pub fn show(bytes: &[u8], font: Option<&CMap>) -> (r: String)
    ensures
        r@ == shown(bytes@, opt_cmap(font)),
{
    match font {
        Some(m) => m.decode(bytes),
        None => decode_win_ansi(bytes),
    }
}

pub open spec fn opt_cmap(f: Option<&CMap>) -> Option<CMapView> {
    match f {
        Some(m) => Some(m@),
        None => None,
    }
}

/// The character map of the first font under `name`.
pub fn find_font<'a>(fonts: &'a Fonts, name: &str) -> (r: Option<&'a CMap>)
    ensures
        opt_cmap(r) == font_from(fonts_view(fonts@), name@, 0),
{
    let mut k: usize = 0;
    while k < fonts.len()
        invariant
            k <= fonts.len(),
            font_from(fonts_view(fonts@), name@, 0) == font_from(
                fonts_view(fonts@),
                name@,
                k as int,
            ),
        decreases fonts.len() - k,
    {
        if same(fonts[k].0.as_str(), name) {
            return Some(&fonts[k].1);
        }
        k += 1;
    }
    None
}

/// An interpreter for the text-showing operators. Positions are kept only as far as they say
/// whether a string starts a new line.
struct TextMachine<'a> {
    out: String,
    font: Option<&'a CMap>,
    leading: i128,
    line_y: i128,
    last_y: Option<i128>,
}

impl<'a> TextMachine<'a> {
    spec fn view(&self) -> TextState {
        TextState {
            out: self.out@,
            font: opt_cmap(self.font),
            leading: self.leading as int,
            line_y: self.line_y as int,
            last_y: match self.last_y {
                Some(y) => Some(y as int),
                None => None,
            },
        }
    }

    spec fn wf(&self) -> bool {
        &&& -LIMIT <= self.leading <= LIMIT
        &&& -LIMIT <= self.line_y <= LIMIT
        &&& match self.last_y {
            Some(y) => -LIMIT <= y <= LIMIT,
            None => true,
        }
    }

    fn newline_if_moved(&mut self)
        requires
            old(self).wf(),
        ensures
            final(self).wf(),
            final(self)@ == on_line(old(self)@),
    {
        match self.last_y {
            Some(prev) => {
                if self.line_y > prev + LINE_EPSILON || prev > self.line_y + LINE_EPSILON {
                    self.out.push('\n');
                }
            },
            None => {},
        }
        self.last_y = Some(self.line_y);
    }

    fn show_operand(&mut self, p: &Vec<Obj>)
        requires
            old(self).wf(),
        ensures
            final(self).wf(),
            final(self)@ == show_last(old(self)@, items_view(p@)),
    {
        proof {
            lemma_items_view(p@);
        }
        if p.len() > 0 {
            match &p[p.len() - 1] {
                Obj::Str(s) => {
                    let text: String = show(s.as_slice(), self.font);
                    self.out.push_str(text.as_str());
                },
                _ => {},
            }
        }
    }

    fn show_array_operand(&mut self, p: &Vec<Obj>)
        requires
            old(self).wf(),
        ensures
            final(self).wf(),
            final(self)@ == show_array(old(self)@, items_view(p@)),
    {
        proof {
            lemma_items_view(p@);
        }
        if p.len() == 0 {
            return;
        }
        match &p[p.len() - 1] {
            Obj::Array(items) => {
                proof {
                    lemma_items_view(items@);
                }
                let ghost v = items_view(items@);
                let ghost start = self.out@;
                let mut k: usize = 0;
                while k < items.len()
                    invariant
                        k <= items.len(),
                        v == items_view(items@),
                        v.len() == items@.len(),
                        forall|i: int| 0 <= i < items@.len() ==> (#[trigger] v[i]) == items@[i]@,
                        self.wf(),
                        self.font == old(self).font,
                        self.leading == old(self).leading,
                        self.line_y == old(self).line_y,
                        self.last_y == old(self).last_y,
                        show_items(v, 0, old(self)@.font, start) == show_items(
                            v,
                            k as int,
                            old(self)@.font,
                            self.out@,
                        ),
                    decreases items.len() - k,
                {
                    assert(v[k as int] == items@[k as int]@);
                    match &items[k] {
                        Obj::Str(s) => {
                            let text: String = show(s.as_slice(), self.font);
                            self.out.push_str(text.as_str());
                        },
                        Obj::Number(n) => {
                            // A big negative kern is how a space that was not encoded is
                            // written.
                            if n.units < KERN_SPACE {
                                self.out.push(' ');
                            }
                        },
                        _ => {},
                    }
                    k += 1;
                }
            },
            _ => {},
        }
    }

    fn operate(&mut self, op: &[u8], p: &Vec<Obj>, fonts: &'a Fonts)
        requires
            old(self).wf(),
        ensures
            final(self).wf(),
            final(self)@ == operated(old(self)@, op@, items_view(p@), fonts_view(fonts@)),
    {
        let n: i128 = last_operand_number(p);
        if bytes_are(op, "BT") {
            self.line_y = 0;
            self.last_y = None;
        } else if bytes_are(op, "ET") {
            self.out.push('\n');
        } else if bytes_are(op, "Tf") {
            self.font = match last_operand_name(p) {
                Some(name) => find_font(fonts, name),
                None => None,
            };
        } else if bytes_are(op, "TL") {
            self.leading = n;
        } else if bytes_are(op, "Td") {
            self.line_y = sum_units(self.line_y, n);
        } else if bytes_are(op, "TD") {
            self.leading = -n;
            self.line_y = sum_units(self.line_y, n);
        } else if bytes_are(op, "Tm") {
            // The last operand of the line matrix is the baseline.
            self.line_y = n;
        } else if bytes_are(op, "T*") {
            self.line_y = sum_units(self.line_y, -self.leading);
        } else if bytes_are(op, "Tj") {
            self.newline_if_moved();
            self.show_operand(p);
        } else if bytes_are(op, "'") || bytes_are(op, "\"") {
            self.line_y = sum_units(self.line_y, -self.leading);
            self.newline_if_moved();
            self.show_operand(p);
        } else if bytes_are(op, "TJ") {
            self.newline_if_moved();
            self.show_array_operand(p);
        }
    }
}

fn last_operand_number(p: &Vec<Obj>) -> (r: i128)
    ensures
        r == last_number(items_view(p@)),
        -LIMIT <= r <= LIMIT,
{
    proof {
        lemma_items_view(p@);
    }
    if p.len() == 0 {
        return 0;
    }
    match &p[p.len() - 1] {
        Obj::Number(n) => if n.units >= -LIMIT && n.units <= LIMIT {
            n.units
        } else {
            0
        },
        _ => 0,
    }
}

fn last_operand_name(p: &Vec<Obj>) -> (r: Option<&str>)
    ensures
        match r {
            Some(n) => last_name(items_view(p@), p@.len() as int) == Some(n@),
            None => last_name(items_view(p@), p@.len() as int) is None,
        },
        items_view(p@).len() == p@.len(),
{
    proof {
        lemma_items_view(p@);
    }
    let ghost v = items_view(p@);
    let mut k: usize = p.len();
    while k > 0
        invariant
            k <= p.len(),
            v == items_view(p@),
            v.len() == p@.len(),
            forall|i: int| 0 <= i < p@.len() ==> (#[trigger] v[i]) == p@[i]@,
            last_name(v, p@.len() as int) == last_name(v, k as int),
        decreases k,
    {
        assert(v[k - 1] == p@[k - 1]@);
        match &p[k - 1] {
            Obj::Name(n) => {
                return Some(n.as_str());
            },
            _ => {},
        }
        k -= 1;
    }
    None
}

/// Run a content stream's text operators and collect what they draw.
pub fn extract_text(content: &[u8], fonts: &Fonts) -> (r: String)
    ensures
        r@ == content_text(content@, fonts_view(fonts@)),
{
    let mut lex: Lexer<'_> = Lexer::new(content);
    let mut operands: Vec<Obj> = Vec::new();
    let mut m: TextMachine<'_> = TextMachine {
        out: String::new(),
        font: None,
        leading: 0,
        line_y: 0,
        last_y: None,
    };
    assert(m@.out =~= text_start().out);
    assert(items_view(operands@) =~= Seq::empty());
    loop
        invariant
            lex.wf(),
            lex.buf == content,
            m.wf(),
            content_text(content@, fonts_view(fonts@)) == text_from(
                content@,
                lex.pos as int,
                items_view(operands@),
                m@,
                fonts_view(fonts@),
            ),
        decreases content@.len() - lex.pos,
    {
        proof {
            lemma_token_at(content@, lex.pos as int);
        }
        match next_token(&mut lex) {
            Token::Operand(o) => {
                proof {
                    lemma_items_push(operands@, o);
                    lemma_items_view(operands@);
                }
                if operands.len() < MAX_PENDING {
                    operands.push(o);
                }
            },
            Token::Word(op) => {
                m.operate(op, &operands, fonts);
                operands.clear();
                assert(items_view(operands@) =~= Seq::empty());
            },
            Token::Junk => {},
            Token::End => {
                return m.out;
            },
        }
    }
}

} // verus!
