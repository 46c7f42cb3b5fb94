//! What operators do to a range, in terms of the text, the caret and the registers.

use vstd::prelude::*;

use crate::doc::Doc;
use crate::effect::{edited, lemma_one_edit, EffectView};
use crate::text::{is_upper, lower_of, upper_of};
use crate::vim::operators::{folded, folded_char, Fold};
use crate::vim::session::{register_read, Step};
use crate::vim::shifting::lemma_lines_in_order;
use crate::vim::state::{Mode, Operator, RegisterView};

verus! {

/// A text without the characters from `a` to `b`.
pub open spec fn without(s: Seq<char>, a: int, b: int) -> Seq<char> {
    s.take(a) + s.skip(b)
}

/// A text with another in the place of the characters from `a` to `b`.
pub open spec fn with(s: Seq<char>, a: int, b: int, t: Seq<char>) -> Seq<char> {
    s.take(a) + t + s.skip(b)
}

/// Whether a register is one that a paste reads back as it was stored: the unnamed one, or a
/// lower-case letter.
pub open spec fn keeps(reg: Option<char>) -> bool {
    reg is None || 'a' <= reg.unwrap() <= 'z'
}

/// Deleting cuts the range out, and the register holds what was cut; where whole lines are deleted up
/// to the end of the text, the line break before them goes too. The mode stays.
pub proof fn deleting_cuts_the_range_out(
    s: Step,
    d: &Doc,
    start: int,
    end: int,
    linewise: bool,
    clip: Seq<char>,
)
    requires
        d.wf(),
        s.out.len() == 0,
        0 <= start < end <= d.size(),
        keeps(s.vim.register),
    ensures
        ({
            let r = s.operate(Some(d), Operator::Delete, start, end, linewise);
            let from = if linewise && end == d.size() && start > 0 && d.chars@[start - 1] == '\n' {
                start - 1
            } else {
                start
            };
            &&& edited(d.chars@, r.out) == without(d.chars@, from, end)
            &&& register_read(r.vim, s.vim.register, clip) == (RegisterView {
                text: d.chars@.subrange(start, end),
                linewise,
            })
            &&& r.vim.unnamed == (RegisterView { text: d.chars@.subrange(start, end), linewise })
            &&& r.vim.yanked == s.vim.yanked
            &&& r.vim.mode == s.vim.mode
            &&& r.out.last() == if linewise {
                EffectView::CaretFirstNonBlankAt(from)
            } else {
                EffectView::Caret(from)
            }
        }),
{
    let r = s.operate(Some(d), Operator::Delete, start, end, linewise);
    let from = if linewise && end == d.size() && start > 0 && d.chars@[start - 1] == '\n' {
        start - 1
    } else {
        start
    };
    assert(d.slice(start, end) =~= d.chars@.subrange(start, end));
    let e = if linewise {
        EffectView::CaretFirstNonBlankAt(from)
    } else {
        EffectView::Caret(from)
    };
    lemma_one_edit(d, s.out, from, end, Seq::empty(), seq![e]);
    assert(r.out =~= s.out.push(crate::effect::replaced(d, from, end, Seq::empty())) + seq![e]);
    assert(d.chars@.take(from) + Seq::empty() + d.chars@.skip(end) =~= without(
        d.chars@,
        from,
        end,
    ));
}

/// Yanking changes no text: it copies the range to the register, and what a plain yank copied can be
/// read under `0` too. The caret goes to the start of the range.
pub proof fn yanking_copies_the_range(
    s: Step,
    d: &Doc,
    start: int,
    end: int,
    linewise: bool,
    clip: Seq<char>,
)
    requires
        s.out.len() == 0,
        0 <= start <= end <= d.size(),
        keeps(s.vim.register),
    ensures
        ({
            let r = s.operate(Some(d), Operator::Yank, start, end, linewise);
            let copied = RegisterView { text: d.chars@.subrange(start, end), linewise };
            &&& r.out == seq![EffectView::Caret(start)]
            &&& register_read(r.vim, s.vim.register, clip) == copied
            &&& r.vim.unnamed == copied
            &&& s.vim.register is None ==> register_read(r.vim, Some('0'), clip) == copied
            &&& r.vim.mode == s.vim.mode
        }),
{
    let r = s.operate(Some(d), Operator::Yank, start, end, linewise);
    assert(d.slice(start, end) =~= d.chars@.subrange(start, end));
    assert(r.out =~= seq![EffectView::Caret(start)]);
}

/// Changing a range cuts it out into the register and goes to insert mode. Of whole lines the content
/// goes and one empty line stays.
pub proof fn changing_cuts_and_inserts(
    s: Step,
    d: &Doc,
    start: int,
    end: int,
    linewise: bool,
    clip: Seq<char>,
)
    requires
        d.wf(),
        s.out.len() == 0,
        0 <= start < end <= d.size(),
        keeps(s.vim.register),
    ensures
        ({
            let r = s.operate(Some(d), Operator::Change, start, end, linewise);
            let from = if linewise {
                d.start(d.line_of(start))
            } else {
                start
            };
            let to = if linewise {
                d.end(d.line_of(end - 1))
            } else {
                end
            };
            &&& r.vim.mode == Mode::Insert
            &&& from <= to
            &&& edited(d.chars@, r.out) == without(d.chars@, from, to)
            &&& r.out.last() == EffectView::Caret(from)
            &&& register_read(r.vim, s.vim.register, clip) == (RegisterView {
                text: d.chars@.subrange(start, end),
                linewise,
            })
            &&& r.vim.yanked == s.vim.yanked
        }),
{
    let r = s.operate(Some(d), Operator::Change, start, end, linewise);
    d.lemma_line_of(start);
    d.lemma_line_of(end - 1);
    lemma_lines_in_order(d, start, end - 1);
    assert(d.slice(start, end) =~= d.chars@.subrange(start, end));
    let from = if linewise {
        d.start(d.line_of(start))
    } else {
        start
    };
    let to = if linewise {
        d.end(d.line_of(end - 1))
    } else {
        end
    };
    if linewise && d.line_of(start) < d.line_of(end - 1) {
        assert(d.lines@[d.line_of(start)].start + d.lines@[d.line_of(start)].len
            < d.lines@[d.line_of(end - 1)].start);
    }
    assert(d.lines@[d.line_of(end - 1)].start + d.lines@[d.line_of(end - 1)].len <= d.size());
    let e = EffectView::Caret(from);
    lemma_one_edit(d, s.out, from, to, Seq::empty(), seq![e]);
    assert(r.out =~= s.out.push(crate::effect::replaced(d, from, to, Seq::empty())) + seq![e]);
    assert(d.chars@.take(from) + Seq::empty() + d.chars@.skip(to) =~= without(d.chars@, from, to));
}

/// The case change that an operator makes.
pub open spec fn fold_by(op: Operator, f: Fold) -> bool {
    ||| op == Operator::Lower && f == Fold::Lower
    ||| op == Operator::Upper && f == Fold::Upper
    ||| op == Operator::ToggleCase && f == Fold::Toggle
}

/// The case operators put the text of the range in another case and leave everything else: the rest
/// of the text, the mode and the registers.
pub proof fn folding_keeps_the_rest(
    s: Step,
    d: &Doc,
    op: Operator,
    f: Fold,
    start: int,
    end: int,
    linewise: bool,
)
    requires
        d.wf(),
        s.out.len() == 0,
        0 <= start < end <= d.size(),
        fold_by(op, f),
    ensures
        ({
            let r = s.operate(Some(d), op, start, end, linewise);
            let text = folded(d.chars@.subrange(start, end), f, end - start);
            &&& r.vim == s.vim
            &&& text.len() > 0 ==> edited(d.chars@, r.out) == with(d.chars@, start, end, text)
                && r.out.last() == EffectView::Caret(start)
            &&& text.len() == 0 ==> r.out.len() == 0
        }),
{
    let r = s.operate(Some(d), op, start, end, linewise);
    assert(d.slice(start, end) =~= d.chars@.subrange(start, end));
    let text = folded(d.chars@.subrange(start, end), f, end - start);
    let e = EffectView::Caret(start);
    lemma_one_edit(d, s.out, start, end, text, seq![e]);
    if text.len() > 0 {
        assert(r.out =~= s.out.push(crate::effect::replaced(d, start, end, text)) + seq![e]);
    }
}

/// Case is changed character by character: an upper-case letter to lower case where it is lowered or
/// toggled, any other to upper case where it is raised or toggled. Text that is put together is
/// changed piece by piece.
pub proof fn folding_is_by_characters(a: Seq<char>, b: Seq<char>, c: char, f: Fold)
    ensures
        folded(a + b, f, (a + b).len() as int) == folded(a, f, a.len() as int) + folded(
            b,
            f,
            b.len() as int,
        ),
        folded(seq![c], Fold::Lower, 1) == lower_of(c),
        folded(seq![c], Fold::Upper, 1) == upper_of(c),
        is_upper(c) ==> folded(seq![c], Fold::Toggle, 1) == lower_of(c),
        !is_upper(c) ==> folded(seq![c], Fold::Toggle, 1) == upper_of(c),
        folded(Seq::<char>::empty(), f, 0) == Seq::<char>::empty(),
{
    lemma_folded_parts(a, b, f, b.len() as int);
    reveal_with_fuel(folded, 2);
    assert(Seq::<char>::empty() + folded_char(c, Fold::Lower) =~= lower_of(c));
    assert(Seq::<char>::empty() + folded_char(c, Fold::Upper) =~= upper_of(c));
    assert(Seq::<char>::empty() + folded_char(c, Fold::Toggle) =~= folded_char(c, Fold::Toggle));
}

proof fn lemma_folded_parts(a: Seq<char>, b: Seq<char>, f: Fold, n: int)
    requires
        0 <= n <= b.len(),
    ensures
        folded(a + b, f, a.len() + n) == folded(a, f, a.len() as int) + folded(b, f, n),
    decreases n,
{
    if n > 0 {
        lemma_folded_parts(a, b, f, n - 1);
        assert((a + b)[a.len() + n - 1] == b[n - 1]);
        assert(folded(a, f, a.len() as int) + folded(b, f, n) =~= folded(a, f, a.len() as int)
            + folded(b, f, n - 1) + folded_char(b[n - 1], f));
    } else {
        lemma_folded_prefix(a, b, f, a.len() as int);
        assert(folded(a, f, a.len() as int) + folded(b, f, n) =~= folded(a, f, a.len() as int));
    }
}

proof fn lemma_folded_prefix(a: Seq<char>, b: Seq<char>, f: Fold, n: int)
    requires
        0 <= n <= a.len(),
    ensures
        folded(a + b, f, n) == folded(a, f, n),
    decreases n,
{
    if n > 0 {
        lemma_folded_prefix(a, b, f, n - 1);
        assert((a + b)[n - 1] == a[n - 1]);
    }
}

/// A capital letter adds to the register of its letter, behind what that holds; the small letter reads
/// all of it. The clipboard's registers write the clipboard, and read what it holds.
pub proof fn capital_letters_append(
    s: Step,
    upper: char,
    lower: char,
    text: Seq<char>,
    linewise: bool,
    clip: Seq<char>,
)
    requires
        'A' <= upper <= 'Z',
        lower as int == upper as int + 32,
    ensures
        ({
            let before = register_read(s.vim, Some(lower), clip).text;
            let r = s.store(Some(upper), text, linewise, false);
            &&& register_read(r.vim, Some(lower), clip).text == before + text
            &&& register_read(r.vim, Some(upper), clip).text == before + text
            &&& r.out == s.out
        }),
        s.store(Some('+'), text, linewise, false).out == s.out.push(
            EffectView::ClipboardWrite(text),
        ),
        s.store(Some('*'), text, linewise, true).out == s.out.push(
            EffectView::ClipboardWrite(text),
        ),
        register_read(s.vim, Some('+'), clip).text == clip,
{
}

} // verus!
