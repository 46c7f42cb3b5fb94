//! What the keys that delete, change and replace do, in terms of the text and the registers.

use vstd::prelude::*;

use crate::doc::Doc;
use crate::effect::{edited, lemma_one_edit, replaced, EffectView};
use crate::vim::edits::ahead;
use crate::vim::keys::{
    begun, hit, lemma_behind_r, lemma_r, lemma_s, lemma_same_count, lemma_tilde, lemma_upper_c,
    lemma_upper_d, lemma_upper_s, lemma_upper_x, lemma_x, plain, quiet,
};
use crate::vim::laws::{keeps, with, without};
use crate::vim::motion::Answer;
use crate::vim::operators::{folded, Fold};
use crate::vim::session::{register_read, Step};
use crate::vim::state::{Mode, Operator, RegisterView, Vim};

verus! {

/// What is deleted into a register: cut out of the text, and in the register.
pub open spec fn cut(s: Step, v: Vim, d: &Doc, a: int, b: int, clip: Seq<char>) -> bool {
    &&& edited(d.chars@, s.out) == without(d.chars@, a, b)
    &&& keeps(v.register) ==> register_read(s.vim, v.register, clip) == (RegisterView {
        text: d.chars@.subrange(a, b),
        linewise: false,
    })
    &&& s.vim.yanked == v.yanked
    &&& s.vim.idle()
}

proof fn lemma_cut(s: Step, d: &Doc, a: int, b: int, clip: Seq<char>)
    requires
        d.wf(),
        s.out.len() == 0,
        0 <= a < b <= d.size(),
        keeps(s.vim.register),
        s.vim.command is None,
        s.vim.search is None,
    ensures
        ({
            let r = s.store(s.vim.register, d.slice(a, b), false, false).delete(
                Some(d),
                a,
                b,
                false,
            );
            &&& cut(r.clear(), s.vim, d, a, b, clip)
            &&& cut(r.ask(EffectView::ClampCaret).clear(), s.vim, d, a, b, clip)
            &&& r.vim.mode == s.vim.mode
        }),
{
    let st = s.store(s.vim.register, d.slice(a, b), false, false);
    let r = st.delete(Some(d), a, b, false);
    assert(st.out =~= s.out);
    assert(d.slice(a, b) =~= d.chars@.subrange(a, b));
    let none = Seq::<EffectView>::empty();
    assert(s.out =~= none);
    lemma_one_edit(d, none, a, b, Seq::empty(), seq![EffectView::Caret(a)]);
    lemma_one_edit(
        d,
        none,
        a,
        b,
        Seq::empty(),
        seq![EffectView::Caret(a), EffectView::ClampCaret],
    );
    let e = none.push(replaced(d, a, b, Seq::empty()));
    assert(r.out =~= e + seq![EffectView::Caret(a)]);
    assert(r.out.push(EffectView::ClampCaret) =~= e + seq![
        EffectView::Caret(a),
        EffectView::ClampCaret,
    ]);
    assert(d.chars@.take(a) + Seq::empty() + d.chars@.skip(b) =~= without(d.chars@, a, b));
}

/// `x` deletes characters from the caret on, as many as the count says, no further than the line.
pub proof fn x_deletes_characters(v: Vim, d: &Doc, page: int, answer: &Answer, clip: Seq<char>)
    requires
        quiet(v),
        d.wf(),
        d.head <= d.end(d.line_of(d.head as int)),
        keeps(v.register),
    ensures
        ({
            let s = hit(v, d, 'x', page, answer);
            let e = ahead(d, v.times());
            &&& d.head < e ==> cut(s, v, d, d.head as int, e, clip)
            &&& d.head == e ==> s.out.len() == 0 && s.vim.unnamed == v.unnamed
            &&& s.vim.mode == Mode::Normal
        }),
{
    lemma_x(v, d, page, answer);
    lemma_same_count(begun(v, d, 'x').vim, v);
    let e = ahead(d, v.times());
    let line = d.line_of(d.head as int);
    d.lemma_line_of(d.head as int);
    assert(d.lines@[line].start + d.lines@[line].len <= d.chars@.len());
    if d.head < e {
        lemma_cut(begun(v, d, 'x'), d, d.head as int, e, clip);
    }
}

/// The place `n` characters before the caret on its line, or the start of the line.
pub open spec fn behind(d: &Doc, n: int) -> int {
    let start = d.start(d.line_of(d.head as int));
    if d.head - n >= start {
        d.head - n
    } else {
        start
    }
}

/// `X` deletes characters before the caret, as many as the count says, no further than the line.
pub proof fn upper_x_deletes_before_the_caret(
    v: Vim,
    d: &Doc,
    page: int,
    answer: &Answer,
    clip: Seq<char>,
)
    requires
        quiet(v),
        d.wf(),
        keeps(v.register),
    ensures
        ({
            let s = hit(v, d, 'X', page, answer);
            let b = behind(d, v.times());
            &&& b < d.head ==> cut(s, v, d, b, d.head as int, clip)
            &&& b == d.head ==> s.out.len() == 0 && s.vim.unnamed == v.unnamed
            &&& s.vim.mode == Mode::Normal
        }),
{
    lemma_upper_x(v, d, page, answer);
    lemma_same_count(begun(v, d, 'X').vim, v);
    let b = behind(d, v.times());
    d.lemma_line_of(d.head as int);
    if b < d.head {
        lemma_cut(begun(v, d, 'X'), d, b, d.head as int, clip);
    }
}

/// `s` deletes characters as `x` does and goes to insert mode.
pub proof fn s_substitutes_characters(
    v: Vim,
    d: &Doc,
    page: int,
    answer: &Answer,
    clip: Seq<char>,
)
    requires
        quiet(v),
        d.wf(),
        keeps(v.register),
        d.head < d.end(d.line_of(d.head as int)),
    ensures
        cut(
            hit(v, d, 's', page, answer),
            v,
            d,
            d.head as int,
            ahead(d, v.times()),
            clip,
        ),
        hit(v, d, 's', page, answer).vim.mode == Mode::Insert,
{
    lemma_s(v, d, page, answer);
    lemma_same_count(begun(v, d, 's').vim, v);
    let line = d.line_of(d.head as int);
    d.lemma_line_of(d.head as int);
    assert(d.lines@[line].start + d.lines@[line].len <= d.chars@.len());
    lemma_cut(begun(v, d, 's').in_mode(Mode::Insert), d, d.head as int, ahead(d, v.times()), clip);
}

/// `D` deletes and `C` changes what is from the caret to the end of its line; `S` changes the line.
pub proof fn capitals_work_to_the_end_of_the_line(v: Vim, d: &Doc, page: int, answer: &Answer)
    requires
        quiet(v),
        d.wf(),
    ensures
        ({
            let line = d.line_of(d.head as int);
            let n = v.times();
            let end = if line + n < d.count() {
                d.start(line + n)
            } else {
                d.size()
            };
            &&& hit(v, d, 'D', page, answer) == begun(v, d, 'D').operate(
                Some(d),
                Operator::Delete,
                d.head as int,
                d.end(line),
                false,
            ).clear()
            &&& hit(v, d, 'C', page, answer) == begun(v, d, 'C').operate(
                Some(d),
                Operator::Change,
                d.head as int,
                d.end(line),
                false,
            ).clear()
            &&& hit(v, d, 'S', page, answer) == begun(v, d, 'S').operate(
                Some(d),
                Operator::Change,
                d.start(line),
                end,
                true,
            ).clear()
        }),
{
    lemma_upper_d(v, d, page, answer);
    lemma_upper_c(v, d, page, answer);
    lemma_upper_s(v, d, page, answer);
    lemma_same_count(begun(v, d, 'S').vim, v);
    d.lemma_line_of(d.head as int);
}

/// `~` toggles the case of characters from the caret on, as many as the count says, no further than
/// the line, and puts the caret behind them.
pub proof fn tilde_toggles_case(v: Vim, d: &Doc, page: int, answer: &Answer)
    requires
        quiet(v),
        d.wf(),
        d.head < d.end(d.line_of(d.head as int)),
        folded(
            d.chars@.subrange(d.head as int, ahead(d, v.times())),
            Fold::Toggle,
            ahead(d, v.times()) - d.head,
        ).len() > 0,
    ensures
        ({
            let s = hit(v, d, '~', page, answer);
            let e = ahead(d, v.times());
            &&& edited(d.chars@, s.out) == with(
                d.chars@,
                d.head as int,
                e,
                folded(d.chars@.subrange(d.head as int, e), Fold::Toggle, e - d.head),
            )
            &&& s.out.last() == EffectView::CaretInLine(e)
            &&& plain(s.vim) == plain(v.cleared())
        }),
{
    lemma_tilde(v, d, page, answer);
    lemma_same_count(begun(v, d, '~').vim, v);
    let line = d.line_of(d.head as int);
    d.lemma_line_of(d.head as int);
    assert(d.lines@[line].start + d.lines@[line].len <= d.chars@.len());
    let e = ahead(d, v.times());
    let h = d.head as int;
    let text = folded(d.chars@.subrange(h, e), Fold::Toggle, e - h);
    assert(d.slice(h, e) =~= d.chars@.subrange(h, e));
    let none = Seq::<EffectView>::empty();
    let post = seq![EffectView::Caret(h), EffectView::CaretInLine(e)];
    lemma_one_edit(d, none, h, e, text, post);
    let s = hit(v, d, '~', page, answer);
    assert(s.out =~= none.push(replaced(d, h, e, text)) + post);
}

/// `r` and a character replace characters from the caret on by that one, as many as the count says,
/// no further than the line; the caret stays on the last of them.
pub proof fn r_replaces_characters(v: Vim, d: &Doc, c: char, page: int, answer: &Answer)
    requires
        quiet(v),
        d.wf(),
        d.head < d.end(d.line_of(d.head as int)),
        c != '\n',
    ensures
        ({
            let p = hit(v, d, 'r', page, answer);
            let s = hit(p.vim, d, c, page, answer);
            let e = ahead(d, v.times());
            &&& p.out.len() == 0
            &&& edited(d.chars@, s.out) == with(
                d.chars@,
                d.head as int,
                e,
                Seq::new((e - d.head) as nat, |i: int| c),
            )
            &&& s.out.last() == EffectView::Caret(e - 1)
            &&& plain(s.vim) == plain(v.cleared())
        }),
{
    lemma_r(v, d, page, answer);
    let p = hit(v, d, 'r', page, answer);
    lemma_behind_r(p.vim, d, c, page, answer);
    lemma_same_count(begun(v, d, 'r').vim, v);
    let w = begun(p.vim, d, c).vim;
    lemma_same_count(w, p.vim);
    let line = d.line_of(d.head as int);
    d.lemma_line_of(d.head as int);
    assert(d.lines@[line].start + d.lines@[line].len <= d.chars@.len());
    let e = ahead(d, v.times());
    let h = d.head as int;
    let text = Seq::new((e - h) as nat, |i: int| c);
    assert(crate::format::repeated(c, e - h) =~= text);
    let none = Seq::<EffectView>::empty();
    let post = seq![EffectView::Caret(e - 1)];
    lemma_one_edit(d, none, h, e, text, post);
    let s = hit(p.vim, d, c, page, answer);
    assert(s.out =~= none.push(replaced(d, h, e, text)) + post);
}

} // verus!
