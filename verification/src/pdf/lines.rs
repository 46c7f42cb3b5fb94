//! Where the text of a page breaks into lines, in terms of the operators that a content stream is made
//! of.

use vstd::prelude::*;

use crate::bytes::utf8;
use crate::pdf::cmap::{CMapView, MAX_PENDING};
use crate::pdf::content::{
    content_text, font_from, last_name, operated, show_items, shown, text_from, text_start,
    TextState,
};
use crate::pdf::num::{Num, LIMIT, SCALE};
use crate::pdf::object::ObjView;
use crate::pdf::token::{lemma_token_at, token_at, TokenView};
use vstd::utf8::encode_utf8_decode_utf8;

verus! {

/// An operator with its operands.
pub struct Instr {
    pub args: Seq<ObjView>,
    pub op: Seq<char>,
}

pub open spec fn ins(args: Seq<ObjView>, op: Seq<char>) -> Instr {
    Instr { args, op }
}

/// Where the operands, from the `k`th on, end that stand in a content stream from `i` on.
pub open spec fn after_args(s: Seq<u8>, i: int, args: Seq<ObjView>, k: int) -> Option<int>
    decreases args.len() - k,
{
    if k >= args.len() {
        Some(i)
    } else if token_at(s, i).0 == TokenView::Operand(args[k]) {
        after_args(s, token_at(s, i).1, args, k + 1)
    } else {
        None
    }
}

/// Whether a content stream is, from `i` on, made of these operators with their operands, from the
/// `n`th on, and ends behind them.
pub open spec fn shows_from(s: Seq<u8>, i: int, prog: Seq<Instr>, n: int) -> bool
    decreases prog.len() - n,
{
    if n >= prog.len() {
        token_at(s, i).0 is End
    } else {
        match after_args(s, i, prog[n].args, 0) {
            Some(j) => token_at(s, j).0 == TokenView::Word(utf8(prog[n].op)) && shows_from(
                s,
                token_at(s, j).1,
                prog,
                n + 1,
            ),
            None => false,
        }
    }
}

/// Whether a content stream is made of these operators with their operands.
pub open spec fn shows(s: Seq<u8>, prog: Seq<Instr>) -> bool {
    shows_from(s, 0, prog, 0)
}

/// Where text extraction stands after the operators from the `n`th on.
spec fn run(
    prog: Seq<Instr>,
    n: int,
    t: TextState,
    fonts: Seq<(Seq<char>, CMapView)>,
) -> TextState
    decreases prog.len() - n,
{
    if n >= prog.len() {
        t
    } else {
        run(prog, n + 1, operated(t, utf8(prog[n].op), prog[n].args, fonts), fonts)
    }
}

proof fn lemma_args(
    s: Seq<u8>,
    i: int,
    args: Seq<ObjView>,
    k: int,
    t: TextState,
    fonts: Seq<(Seq<char>, CMapView)>,
)
    requires
        0 <= i <= s.len(),
        0 <= k <= args.len() <= MAX_PENDING,
        after_args(s, i, args, k) is Some,
    ensures
        ({
            let j = after_args(s, i, args, k).unwrap();
            &&& i <= j <= s.len()
            &&& text_from(s, i, args.take(k), t, fonts) == text_from(s, j, args, t, fonts)
        }),
    decreases args.len() - k,
{
    if k < args.len() {
        lemma_token_at(s, i);
        lemma_args(s, token_at(s, i).1, args, k + 1, t, fonts);
        assert(args.take(k).push(args[k]) =~= args.take(k + 1));
    } else {
        assert(args.take(k) =~= args);
    }
}

proof fn lemma_shown(
    s: Seq<u8>,
    i: int,
    prog: Seq<Instr>,
    n: int,
    t: TextState,
    fonts: Seq<(Seq<char>, CMapView)>,
)
    requires
        0 <= i <= s.len(),
        0 <= n <= prog.len(),
        shows_from(s, i, prog, n),
        forall|k: int| 0 <= k < prog.len() ==> (#[trigger] prog[k]).args.len() <= MAX_PENDING,
    ensures
        text_from(s, i, Seq::empty(), t, fonts) == run(prog, n, t, fonts).out,
    decreases prog.len() - n,
{
    if n < prog.len() {
        let args = prog[n].args;
        let j = after_args(s, i, args, 0).unwrap();
        lemma_args(s, i, args, 0, t, fonts);
        assert(args.take(0) =~= Seq::empty());
        lemma_token_at(s, j);
        lemma_shown(
            s,
            token_at(s, j).1,
            prog,
            n + 1,
            operated(t, utf8(prog[n].op), args, fonts),
            fonts,
        );
    } else {
        lemma_token_at(s, i);
    }
}

/// No two of the operators are written alike.
proof fn lemma_operators()
    ensures
        utf8("BT"@) != utf8("ET"@),
        utf8("BT"@) != utf8("Tf"@),
        utf8("BT"@) != utf8("TL"@),
        utf8("BT"@) != utf8("Td"@),
        utf8("BT"@) != utf8("TD"@),
        utf8("BT"@) != utf8("Tm"@),
        utf8("BT"@) != utf8("T*"@),
        utf8("BT"@) != utf8("Tj"@),
        utf8("BT"@) != utf8("'"@),
        utf8("BT"@) != utf8("\""@),
        utf8("BT"@) != utf8("TJ"@),
        utf8("ET"@) != utf8("Tf"@),
        utf8("ET"@) != utf8("TL"@),
        utf8("ET"@) != utf8("Td"@),
        utf8("ET"@) != utf8("TD"@),
        utf8("ET"@) != utf8("Tm"@),
        utf8("ET"@) != utf8("T*"@),
        utf8("ET"@) != utf8("Tj"@),
        utf8("ET"@) != utf8("'"@),
        utf8("ET"@) != utf8("\""@),
        utf8("ET"@) != utf8("TJ"@),
        utf8("Tf"@) != utf8("TL"@),
        utf8("Tf"@) != utf8("Td"@),
        utf8("Tf"@) != utf8("TD"@),
        utf8("Tf"@) != utf8("Tm"@),
        utf8("Tf"@) != utf8("T*"@),
        utf8("Tf"@) != utf8("Tj"@),
        utf8("Tf"@) != utf8("'"@),
        utf8("Tf"@) != utf8("\""@),
        utf8("Tf"@) != utf8("TJ"@),
        utf8("TL"@) != utf8("Td"@),
        utf8("TL"@) != utf8("TD"@),
        utf8("TL"@) != utf8("Tm"@),
        utf8("TL"@) != utf8("T*"@),
        utf8("TL"@) != utf8("Tj"@),
        utf8("TL"@) != utf8("'"@),
        utf8("TL"@) != utf8("\""@),
        utf8("TL"@) != utf8("TJ"@),
        utf8("Td"@) != utf8("TD"@),
        utf8("Td"@) != utf8("Tm"@),
        utf8("Td"@) != utf8("T*"@),
        utf8("Td"@) != utf8("Tj"@),
        utf8("Td"@) != utf8("'"@),
        utf8("Td"@) != utf8("\""@),
        utf8("Td"@) != utf8("TJ"@),
        utf8("TD"@) != utf8("Tm"@),
        utf8("TD"@) != utf8("T*"@),
        utf8("TD"@) != utf8("Tj"@),
        utf8("TD"@) != utf8("'"@),
        utf8("TD"@) != utf8("\""@),
        utf8("TD"@) != utf8("TJ"@),
        utf8("Tm"@) != utf8("T*"@),
        utf8("Tm"@) != utf8("Tj"@),
        utf8("Tm"@) != utf8("'"@),
        utf8("Tm"@) != utf8("\""@),
        utf8("Tm"@) != utf8("TJ"@),
        utf8("T*"@) != utf8("Tj"@),
        utf8("T*"@) != utf8("'"@),
        utf8("T*"@) != utf8("\""@),
        utf8("T*"@) != utf8("TJ"@),
        utf8("Tj"@) != utf8("'"@),
        utf8("Tj"@) != utf8("\""@),
        utf8("Tj"@) != utf8("TJ"@),
        utf8("'"@) != utf8("\""@),
        utf8("'"@) != utf8("TJ"@),
        utf8("\""@) != utf8("TJ"@),
{
    reveal_strlit("BT");
    reveal_strlit("ET");
    reveal_strlit("Tf");
    reveal_strlit("TL");
    reveal_strlit("Td");
    reveal_strlit("TD");
    reveal_strlit("Tm");
    reveal_strlit("T*");
    reveal_strlit("Tj");
    reveal_strlit("'");
    reveal_strlit("\"");
    reveal_strlit("TJ");
    encode_utf8_decode_utf8("BT"@);
    encode_utf8_decode_utf8("ET"@);
    encode_utf8_decode_utf8("Tf"@);
    encode_utf8_decode_utf8("TL"@);
    encode_utf8_decode_utf8("Td"@);
    encode_utf8_decode_utf8("TD"@);
    encode_utf8_decode_utf8("Tm"@);
    encode_utf8_decode_utf8("T*"@);
    encode_utf8_decode_utf8("Tj"@);
    encode_utf8_decode_utf8("'"@);
    encode_utf8_decode_utf8("\""@);
    encode_utf8_decode_utf8("TJ"@);
    assert("BT"@.len() == 2);
    assert("BT"@[0] == 'B' && "BT"@[1] == 'T');
    assert("ET"@.len() == 2);
    assert("ET"@[0] == 'E' && "ET"@[1] == 'T');
    assert("Tf"@.len() == 2);
    assert("Tf"@[0] == 'T' && "Tf"@[1] == 'f');
    assert("TL"@.len() == 2);
    assert("TL"@[0] == 'T' && "TL"@[1] == 'L');
    assert("Td"@.len() == 2);
    assert("Td"@[0] == 'T' && "Td"@[1] == 'd');
    assert("TD"@.len() == 2);
    assert("TD"@[0] == 'T' && "TD"@[1] == 'D');
    assert("Tm"@.len() == 2);
    assert("Tm"@[0] == 'T' && "Tm"@[1] == 'm');
    assert("T*"@.len() == 2);
    assert("T*"@[0] == 'T' && "T*"@[1] == '*');
    assert("Tj"@.len() == 2);
    assert("Tj"@[0] == 'T' && "Tj"@[1] == 'j');
    assert("'"@.len() == 1);
    assert("'"@[0] == '\'');
    assert("\""@.len() == 1);
    assert("\""@[0] == '"');
    assert("TJ"@.len() == 2);
    assert("TJ"@[0] == 'T' && "TJ"@[1] == 'J');
}

/// The font that a name stands for.
pub open spec fn s_font(fonts: Seq<(Seq<char>, CMapView)>, name: Seq<char>) -> Option<CMapView> {
    font_from(fonts, name, 0)
}

/// Two strings as they are read: each on a line of its own where their baselines are apart, and one
/// behind the other where they are not.
pub open spec fn lines_of(font: Option<CMapView>, a: Seq<u8>, b: Seq<u8>, apart: bool) -> Seq<char> {
    if apart {
        shown(a, font) + seq!['\n'] + shown(b, font)
    } else {
        shown(a, font) + shown(b, font)
    }
}

/// Whether two heights, in units, are more than six tenths apart.
pub open spec fn apart(y: int, z: int) -> bool {
    5 * (y - z) > 3 * SCALE || 5 * (z - y) > 3 * SCALE
}

/// A number within the limits.
pub open spec fn fine(n: Num) -> bool {
    -LIMIT <= n.units <= LIMIT
}

/// A text matrix puts the baseline at its last number: two strings are on lines of their own where their
/// matrices are more than six tenths apart in height, and on one line where they are not.
pub proof fn a_matrix_sets_the_baseline(
    s: Seq<u8>,
    fonts: Seq<(Seq<char>, CMapView)>,
    f: Seq<char>,
    size: ObjView,
    a: Seq<u8>,
    b: Seq<u8>,
    m: Seq<ObjView>,
    y: Num,
    n: Seq<ObjView>,
    z: Num,
)
    requires
        !(size is Name),
        m.len() == 5,
        n.len() == 5,
        fine(y),
        fine(z),
        shows(
            s,
            seq![
                ins(Seq::empty(), "BT"@),
                ins(seq![ObjView::Name(f), size], "Tf"@),
                ins(m.push(ObjView::Number(y)), "Tm"@),
                ins(seq![ObjView::Str(a)], "Tj"@),
                ins(n.push(ObjView::Number(z)), "Tm"@),
                ins(seq![ObjView::Str(b)], "Tj"@),
            ],
        ),
    ensures
        content_text(s, fonts) == lines_of(s_font(fonts, f), a, b, apart(y.units as int, z.units as int)),
{
    let prog = seq![
        ins(Seq::empty(), "BT"@),
        ins(seq![ObjView::Name(f), size], "Tf"@),
        ins(m.push(ObjView::Number(y)), "Tm"@),
        ins(seq![ObjView::Str(a)], "Tj"@),
        ins(n.push(ObjView::Number(z)), "Tm"@),
        ins(seq![ObjView::Str(b)], "Tj"@),
    ];
    lemma_operators();
    assert forall|k: int| 0 <= k < prog.len() implies (#[trigger] prog[k]).args.len()
        <= MAX_PENDING by {
    }
    lemma_shown(s, 0, prog, 0, text_start(), fonts);
    reveal_with_fuel(run, 8);
    reveal_with_fuel(last_name, 3);
    let font = s_font(fonts, f);
    assert(Seq::<char>::empty() + shown(a, font) =~= shown(a, font));
    assert(shown(a, font).push('\n') + shown(b, font) =~= shown(a, font) + seq!['\n'] + shown(
        b,
        font,
    ));
}

/// A move shifts the baseline by its last number: the string behind it is on a line of its own where that
/// is more than six tenths up or down, and on the same line where it is not.
pub proof fn a_move_shifts_the_baseline(
    s: Seq<u8>,
    fonts: Seq<(Seq<char>, CMapView)>,
    f: Seq<char>,
    size: ObjView,
    a: Seq<u8>,
    b: Seq<u8>,
    x: ObjView,
    y: Num,
    w: ObjView,
    z: Num,
)
    requires
        !(size is Name),
        fine(y),
        fine(z),
        -LIMIT <= y.units + z.units <= LIMIT,
        shows(
            s,
            seq![
                ins(Seq::empty(), "BT"@),
                ins(seq![ObjView::Name(f), size], "Tf"@),
                ins(seq![x, ObjView::Number(y)], "Td"@),
                ins(seq![ObjView::Str(a)], "Tj"@),
                ins(seq![w, ObjView::Number(z)], "Td"@),
                ins(seq![ObjView::Str(b)], "Tj"@),
            ],
        ),
    ensures
        content_text(s, fonts) == lines_of(s_font(fonts, f), a, b, apart(z.units as int, 0)),
{
    let prog = seq![
        ins(Seq::empty(), "BT"@),
        ins(seq![ObjView::Name(f), size], "Tf"@),
        ins(seq![x, ObjView::Number(y)], "Td"@),
        ins(seq![ObjView::Str(a)], "Tj"@),
        ins(seq![w, ObjView::Number(z)], "Td"@),
        ins(seq![ObjView::Str(b)], "Tj"@),
    ];
    lemma_operators();
    assert forall|k: int| 0 <= k < prog.len() implies (#[trigger] prog[k]).args.len()
        <= MAX_PENDING by {
    }
    lemma_shown(s, 0, prog, 0, text_start(), fonts);
    reveal_with_fuel(run, 8);
    reveal_with_fuel(last_name, 3);
    let font = s_font(fonts, f);
    assert(Seq::<char>::empty() + shown(a, font) =~= shown(a, font));
    assert(shown(a, font).push('\n') + shown(b, font) =~= shown(a, font) + seq!['\n'] + shown(
        b,
        font,
    ));
}

/// A move that sets the leading shifts the baseline by its last number, too.
pub proof fn a_move_with_leading_shifts_the_baseline(
    s: Seq<u8>,
    fonts: Seq<(Seq<char>, CMapView)>,
    f: Seq<char>,
    size: ObjView,
    a: Seq<u8>,
    b: Seq<u8>,
    x: ObjView,
    y: Num,
    w: ObjView,
    z: Num,
)
    requires
        !(size is Name),
        fine(y),
        fine(z),
        -LIMIT <= y.units + z.units <= LIMIT,
        shows(
            s,
            seq![
                ins(Seq::empty(), "BT"@),
                ins(seq![ObjView::Name(f), size], "Tf"@),
                ins(seq![x, ObjView::Number(y)], "TD"@),
                ins(seq![ObjView::Str(a)], "Tj"@),
                ins(seq![w, ObjView::Number(z)], "TD"@),
                ins(seq![ObjView::Str(b)], "Tj"@),
            ],
        ),
    ensures
        content_text(s, fonts) == lines_of(s_font(fonts, f), a, b, apart(z.units as int, 0)),
{
    let prog = seq![
        ins(Seq::empty(), "BT"@),
        ins(seq![ObjView::Name(f), size], "Tf"@),
        ins(seq![x, ObjView::Number(y)], "TD"@),
        ins(seq![ObjView::Str(a)], "Tj"@),
        ins(seq![w, ObjView::Number(z)], "TD"@),
        ins(seq![ObjView::Str(b)], "Tj"@),
    ];
    lemma_operators();
    assert forall|k: int| 0 <= k < prog.len() implies (#[trigger] prog[k]).args.len()
        <= MAX_PENDING by {
    }
    lemma_shown(s, 0, prog, 0, text_start(), fonts);
    reveal_with_fuel(run, 8);
    reveal_with_fuel(last_name, 3);
    let font = s_font(fonts, f);
    assert(Seq::<char>::empty() + shown(a, font) =~= shown(a, font));
    assert(shown(a, font).push('\n') + shown(b, font) =~= shown(a, font) + seq!['\n'] + shown(
        b,
        font,
    ));
}

/// A move that sets the leading sets it to the same step: the next line is as far from the string as that
/// was from the one before.
pub proof fn the_next_line_after_a_move_with_leading(
    s: Seq<u8>,
    fonts: Seq<(Seq<char>, CMapView)>,
    f: Seq<char>,
    size: ObjView,
    a: Seq<u8>,
    b: Seq<u8>,
    x: ObjView,
    y: Num,
)
    requires
        !(size is Name),
        fine(y),
        -LIMIT <= 2 * y.units <= LIMIT,
        shows(
            s,
            seq![
                ins(Seq::empty(), "BT"@),
                ins(seq![ObjView::Name(f), size], "Tf"@),
                ins(seq![x, ObjView::Number(y)], "TD"@),
                ins(seq![ObjView::Str(a)], "Tj"@),
                ins(Seq::empty(), "T*"@),
                ins(seq![ObjView::Str(b)], "Tj"@),
            ],
        ),
    ensures
        content_text(s, fonts) == lines_of(s_font(fonts, f), a, b, apart(y.units as int, 0)),
{
    let prog = seq![
        ins(Seq::empty(), "BT"@),
        ins(seq![ObjView::Name(f), size], "Tf"@),
        ins(seq![x, ObjView::Number(y)], "TD"@),
        ins(seq![ObjView::Str(a)], "Tj"@),
        ins(Seq::empty(), "T*"@),
        ins(seq![ObjView::Str(b)], "Tj"@),
    ];
    lemma_operators();
    assert forall|k: int| 0 <= k < prog.len() implies (#[trigger] prog[k]).args.len()
        <= MAX_PENDING by {
    }
    lemma_shown(s, 0, prog, 0, text_start(), fonts);
    reveal_with_fuel(run, 8);
    reveal_with_fuel(last_name, 3);
    let font = s_font(fonts, f);
    assert(Seq::<char>::empty() + shown(a, font) =~= shown(a, font));
    assert(shown(a, font).push('\n') + shown(b, font) =~= shown(a, font) + seq!['\n'] + shown(
        b,
        font,
    ));
}

/// The next-line operator shifts the baseline down by the leading: the string behind it is on a line of its
/// own where the leading is more than six tenths, either way, and on the same line where it is not.
pub proof fn the_next_line_is_down_by_the_leading(
    s: Seq<u8>,
    fonts: Seq<(Seq<char>, CMapView)>,
    f: Seq<char>,
    size: ObjView,
    a: Seq<u8>,
    b: Seq<u8>,
    l: Num,
)
    requires
        !(size is Name),
        fine(l),
        shows(
            s,
            seq![
                ins(Seq::empty(), "BT"@),
                ins(seq![ObjView::Name(f), size], "Tf"@),
                ins(seq![ObjView::Number(l)], "TL"@),
                ins(seq![ObjView::Str(a)], "Tj"@),
                ins(Seq::empty(), "T*"@),
                ins(seq![ObjView::Str(b)], "Tj"@),
            ],
        ),
    ensures
        content_text(s, fonts) == lines_of(s_font(fonts, f), a, b, apart(l.units as int, 0)),
{
    let prog = seq![
        ins(Seq::empty(), "BT"@),
        ins(seq![ObjView::Name(f), size], "Tf"@),
        ins(seq![ObjView::Number(l)], "TL"@),
        ins(seq![ObjView::Str(a)], "Tj"@),
        ins(Seq::empty(), "T*"@),
        ins(seq![ObjView::Str(b)], "Tj"@),
    ];
    lemma_operators();
    assert forall|k: int| 0 <= k < prog.len() implies (#[trigger] prog[k]).args.len()
        <= MAX_PENDING by {
    }
    lemma_shown(s, 0, prog, 0, text_start(), fonts);
    reveal_with_fuel(run, 8);
    reveal_with_fuel(last_name, 3);
    let font = s_font(fonts, f);
    assert(Seq::<char>::empty() + shown(a, font) =~= shown(a, font));
    assert(shown(a, font).push('\n') + shown(b, font) =~= shown(a, font) + seq!['\n'] + shown(
        b,
        font,
    ));
}

/// The quote operator shows its string on the next line, as the next-line operator and a show would.
pub proof fn a_quote_shows_on_the_next_line(
    s: Seq<u8>,
    fonts: Seq<(Seq<char>, CMapView)>,
    f: Seq<char>,
    size: ObjView,
    a: Seq<u8>,
    b: Seq<u8>,
    l: Num,
)
    requires
        !(size is Name),
        fine(l),
        shows(
            s,
            seq![
                ins(Seq::empty(), "BT"@),
                ins(seq![ObjView::Name(f), size], "Tf"@),
                ins(seq![ObjView::Number(l)], "TL"@),
                ins(seq![ObjView::Str(a)], "Tj"@),
                ins(seq![ObjView::Str(b)], "'"@),
            ],
        ),
    ensures
        content_text(s, fonts) == lines_of(s_font(fonts, f), a, b, apart(l.units as int, 0)),
{
    let prog = seq![
        ins(Seq::empty(), "BT"@),
        ins(seq![ObjView::Name(f), size], "Tf"@),
        ins(seq![ObjView::Number(l)], "TL"@),
        ins(seq![ObjView::Str(a)], "Tj"@),
        ins(seq![ObjView::Str(b)], "'"@),
    ];
    lemma_operators();
    assert forall|k: int| 0 <= k < prog.len() implies (#[trigger] prog[k]).args.len()
        <= MAX_PENDING by {
    }
    lemma_shown(s, 0, prog, 0, text_start(), fonts);
    reveal_with_fuel(run, 8);
    reveal_with_fuel(last_name, 3);
    let font = s_font(fonts, f);
    assert(Seq::<char>::empty() + shown(a, font) =~= shown(a, font));
    assert(shown(a, font).push('\n') + shown(b, font) =~= shown(a, font) + seq!['\n'] + shown(
        b,
        font,
    ));
}

/// The double-quote operator shows the last of its operands on the next line, whatever spacing stands before
/// it.
pub proof fn a_double_quote_shows_on_the_next_line(
    s: Seq<u8>,
    fonts: Seq<(Seq<char>, CMapView)>,
    f: Seq<char>,
    size: ObjView,
    a: Seq<u8>,
    b: Seq<u8>,
    l: Num,
    w: ObjView,
    c: ObjView,
)
    requires
        !(size is Name),
        fine(l),
        shows(
            s,
            seq![
                ins(Seq::empty(), "BT"@),
                ins(seq![ObjView::Name(f), size], "Tf"@),
                ins(seq![ObjView::Number(l)], "TL"@),
                ins(seq![ObjView::Str(a)], "Tj"@),
                ins(seq![w, c, ObjView::Str(b)], "\""@),
            ],
        ),
    ensures
        content_text(s, fonts) == lines_of(s_font(fonts, f), a, b, apart(l.units as int, 0)),
{
    let prog = seq![
        ins(Seq::empty(), "BT"@),
        ins(seq![ObjView::Name(f), size], "Tf"@),
        ins(seq![ObjView::Number(l)], "TL"@),
        ins(seq![ObjView::Str(a)], "Tj"@),
        ins(seq![w, c, ObjView::Str(b)], "\""@),
    ];
    lemma_operators();
    assert forall|k: int| 0 <= k < prog.len() implies (#[trigger] prog[k]).args.len()
        <= MAX_PENDING by {
    }
    lemma_shown(s, 0, prog, 0, text_start(), fonts);
    reveal_with_fuel(run, 8);
    reveal_with_fuel(last_name, 3);
    let font = s_font(fonts, f);
    assert(Seq::<char>::empty() + shown(a, font) =~= shown(a, font));
    assert(shown(a, font).push('\n') + shown(b, font) =~= shown(a, font) + seq!['\n'] + shown(
        b,
        font,
    ));
}

/// Each text object ends its line: two of them give two lines, whatever heights were left behind.
pub proof fn text_objects_end_their_lines(
    s: Seq<u8>,
    fonts: Seq<(Seq<char>, CMapView)>,
    a: Seq<u8>,
    b: Seq<u8>,
    x: ObjView,
    y: Num,
)
    requires
        fine(y),
        shows(
            s,
            seq![
                ins(Seq::empty(), "BT"@),
                ins(seq![x, ObjView::Number(y)], "Td"@),
                ins(seq![ObjView::Str(a)], "Tj"@),
                ins(Seq::empty(), "ET"@),
                ins(Seq::empty(), "BT"@),
                ins(seq![ObjView::Str(b)], "Tj"@),
                ins(Seq::empty(), "ET"@),
            ],
        ),
    ensures
        content_text(s, fonts) == shown(a, None) + seq!['\n'] + shown(b, None) + seq!['\n'],
{
    let prog = seq![
        ins(Seq::empty(), "BT"@),
        ins(seq![x, ObjView::Number(y)], "Td"@),
        ins(seq![ObjView::Str(a)], "Tj"@),
        ins(Seq::empty(), "ET"@),
        ins(Seq::empty(), "BT"@),
        ins(seq![ObjView::Str(b)], "Tj"@),
        ins(Seq::empty(), "ET"@),
    ];
    lemma_operators();
    assert forall|k: int| 0 <= k < prog.len() implies (#[trigger] prog[k]).args.len()
        <= MAX_PENDING by {
    }
    lemma_shown(s, 0, prog, 0, text_start(), fonts);
    reveal_with_fuel(run, 9);
    assert(Seq::<char>::empty() + shown(a, None) =~= shown(a, None));
    assert((shown(a, None).push('\n') + shown(b, None)).push('\n') =~= shown(a, None) + seq!['\n']
        + shown(b, None) + seq!['\n']);
}

/// An array shows its strings one behind the other, through the font that was set last.
pub proof fn an_array_shows_its_items(
    s: Seq<u8>,
    fonts: Seq<(Seq<char>, CMapView)>,
    f: Seq<char>,
    g: Seq<char>,
    size: ObjView,
    items: Seq<ObjView>,
)
    requires
        !(size is Name),
        shows(
            s,
            seq![
                ins(Seq::empty(), "BT"@),
                ins(seq![ObjView::Name(f), size], "Tf"@),
                ins(seq![ObjView::Name(g), size], "Tf"@),
                ins(seq![ObjView::Array(items)], "TJ"@),
            ],
        ),
    ensures
        content_text(s, fonts) == show_items(items, 0, s_font(fonts, g), Seq::empty()),
{
    let prog = seq![
        ins(Seq::empty(), "BT"@),
        ins(seq![ObjView::Name(f), size], "Tf"@),
        ins(seq![ObjView::Name(g), size], "Tf"@),
        ins(seq![ObjView::Array(items)], "TJ"@),
    ];
    lemma_operators();
    assert forall|k: int| 0 <= k < prog.len() implies (#[trigger] prog[k]).args.len()
        <= MAX_PENDING by {
    }
    lemma_shown(s, 0, prog, 0, text_start(), fonts);
    reveal_with_fuel(run, 6);
    reveal_with_fuel(last_name, 3);
}

/// Arrays in two parts are shown part by part. A string shows its text; a number is a space where it
/// is below minus one hundred, and nothing otherwise; anything else shows nothing.
pub proof fn arrays_show_part_by_part(
    x: Seq<ObjView>,
    y: Seq<ObjView>,
    o: ObjView,
    font: Option<CMapView>,
)
    ensures
        show_items(x + y, 0, font, Seq::empty()) == show_items(x, 0, font, Seq::empty())
            + show_items(y, 0, font, Seq::empty()),
        show_items(seq![o], 0, font, Seq::empty()) == match o {
            ObjView::Str(s) => shown(s, font),
            ObjView::Number(n) => if n.units < -100 * SCALE {
                seq![' ']
            } else {
                Seq::empty()
            },
            _ => Seq::empty(),
        },
{
    lemma_items_after(x, 0, font, Seq::empty());
    lemma_items_after(y, 0, font, show_items(x, 0, font, Seq::empty()));
    lemma_items_parts(x, y, 0, font, Seq::empty());
    reveal_with_fuel(show_items, 2);
    match o {
        ObjView::Str(s) => {
            assert(Seq::<char>::empty() + shown(s, font) =~= shown(s, font));
        },
        ObjView::Number(n) => {
            assert(Seq::<char>::empty().push(' ') =~= seq![' ']);
        },
        _ => {},
    }
}

proof fn lemma_items_after(x: Seq<ObjView>, k: int, font: Option<CMapView>, acc: Seq<char>)
    requires
        0 <= k <= x.len(),
    ensures
        show_items(x, k, font, acc) == acc + show_items(x, k, font, Seq::empty()),
    decreases x.len() - k,
{
    if k < x.len() {
        let none = Seq::<char>::empty();
        match x[k] {
            ObjView::Str(s) => {
                let t = shown(s, font);
                lemma_items_after(x, k + 1, font, acc + t);
                lemma_items_after(x, k + 1, font, none + t);
                let rest = show_items(x, k + 1, font, none);
                assert(acc + t + rest =~= acc + (none + t + rest));
            },
            ObjView::Number(n) => {
                lemma_items_after(x, k + 1, font, acc.push(' '));
                lemma_items_after(x, k + 1, font, none.push(' '));
                lemma_items_after(x, k + 1, font, acc);
                let rest = show_items(x, k + 1, font, none);
                assert(acc.push(' ') + rest =~= acc + (none.push(' ') + rest));
            },
            _ => {
                lemma_items_after(x, k + 1, font, acc);
            },
        }
    } else {
        assert(acc + Seq::<char>::empty() =~= acc);
    }
}

proof fn lemma_items_parts(
    x: Seq<ObjView>,
    y: Seq<ObjView>,
    k: int,
    font: Option<CMapView>,
    acc: Seq<char>,
)
    requires
        0 <= k <= x.len(),
    ensures
        show_items(x + y, k, font, acc) == show_items(
            y,
            0,
            font,
            show_items(x, k, font, acc),
        ),
    decreases x.len() - k,
{
    if k < x.len() {
        assert((x + y)[k] == x[k]);
        match x[k] {
            ObjView::Str(s) => lemma_items_parts(x, y, k + 1, font, acc + shown(s, font)),
            ObjView::Number(n) => {
                lemma_items_parts(x, y, k + 1, font, acc.push(' '));
                lemma_items_parts(x, y, k + 1, font, acc);
            },
            _ => lemma_items_parts(x, y, k + 1, font, acc),
        }
    } else {
        lemma_items_behind(x, y, 0, font, acc);
    }
}

proof fn lemma_items_behind(
    x: Seq<ObjView>,
    y: Seq<ObjView>,
    k: int,
    font: Option<CMapView>,
    acc: Seq<char>,
)
    requires
        0 <= k <= y.len(),
    ensures
        show_items(x + y, x.len() + k, font, acc) == show_items(y, k, font, acc),
    decreases y.len() - k,
{
    if k < y.len() {
        assert((x + y)[x.len() + k] == y[k]);
        match y[k] {
            ObjView::Str(s) => lemma_items_behind(x, y, k + 1, font, acc + shown(s, font)),
            ObjView::Number(n) => {
                lemma_items_behind(x, y, k + 1, font, acc.push(' '));
                lemma_items_behind(x, y, k + 1, font, acc);
            },
            _ => lemma_items_behind(x, y, k + 1, font, acc),
        }
    }
}

/// A font is the first one under its name, and there is none where no font has the name.
pub proof fn a_font_is_the_first_of_its_name(
    fonts: Seq<(Seq<char>, CMapView)>,
    name: Seq<char>,
    k: int,
)
    requires
        0 <= k <= fonts.len(),
        forall|j: int| 0 <= j < k ==> (#[trigger] fonts[j]).0 != name,
        k < fonts.len() ==> fonts[k].0 == name,
    ensures
        s_font(fonts, name) == if k < fonts.len() {
            Some(fonts[k].1)
        } else {
            None
        },
{
    lemma_font_from(fonts, name, 0, k);
}

proof fn lemma_font_from(fonts: Seq<(Seq<char>, CMapView)>, name: Seq<char>, i: int, k: int)
    requires
        0 <= i <= k <= fonts.len(),
        forall|j: int| 0 <= j < k ==> (#[trigger] fonts[j]).0 != name,
        k < fonts.len() ==> fonts[k].0 == name,
    ensures
        font_from(fonts, name, i) == if k < fonts.len() {
            Some(fonts[k].1)
        } else {
            None
        },
    decreases k - i,
{
    if i < k {
        assert(fonts[i].0 != name);
        lemma_font_from(fonts, name, i + 1, k);
    }
}

} // verus!
