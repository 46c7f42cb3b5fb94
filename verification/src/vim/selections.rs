//! What the keys of the visual modes do with the selection.

use vstd::prelude::*;

use crate::doc::Doc;
use crate::effect::{edited, lemma_one_edit, replaced, EffectView};
use crate::key::{Key, KeyCode};
use crate::vim::keys::{
    begun, hit, is_motion, lemma_same_count, lemma_selecting, lemma_selecting_keys, plain,
    selecting,
};
use crate::vim::laws::with;
use crate::vim::motion::{motion_to, Answer};
use crate::vim::normal::object_named;
use crate::vim::plugin::pressed;
use crate::vim::session::Step;
use crate::vim::state::{Mode, Operator, Prefix, Vim};
use crate::vim::visual::overwritten;

verus! {

/// Where the selection starts.
pub open spec fn from(d: &Doc) -> int {
    if d.anchor <= d.head {
        d.anchor as int
    } else {
        d.head as int
    }
}

/// The last selected place.
pub open spec fn last(d: &Doc) -> int {
    if d.anchor <= d.head {
        d.head as int
    } else {
        d.anchor as int
    }
}

/// Where the selection ends: behind its last character, within the text.
pub open spec fn to(d: &Doc) -> int {
    if last(d) < d.size() {
        last(d) + 1
    } else {
        d.size()
    }
}

/// The keys of the operators in a visual mode.
pub open spec fn applies(c: char, op: Operator) -> bool {
    ||| (c == 'd' || c == 'x') && op == Operator::Delete
    ||| (c == 'c' || c == 's') && op == Operator::Change
    ||| c == 'y' && op == Operator::Yank
    ||| c == '>' && op == Operator::Indent
    ||| c == '<' && op == Operator::Outdent
    ||| c == 'u' && op == Operator::Lower
    ||| c == 'U' && op == Operator::Upper
    ||| c == '~' && op == Operator::ToggleCase
}

/// An operator's key applies it to the selection, both ends taken, and leaves the visual mode.
pub proof fn operators_take_the_selection(
    v: Vim,
    d: &Doc,
    c: char,
    op: Operator,
    page: int,
    answer: &Answer,
)
    requires
        selecting(v),
        v.mode == Mode::Visual,
        applies(c, op),
    ensures
        hit(v, d, c, page, answer) == begun(v, d, c).in_mode(Mode::Normal).operate(
            Some(d),
            op,
            from(d),
            to(d),
            false,
        ).clear(),
{
    lemma_selecting_keys(v, d, c, page, answer);
    lemma_same_count(begun(v, d, c).vim, v);
}

/// In the visual mode by lines an operator takes all the lines that the selection touches.
pub proof fn operators_take_the_selected_lines(
    v: Vim,
    d: &Doc,
    c: char,
    op: Operator,
    page: int,
    answer: &Answer,
)
    requires
        selecting(v),
        v.mode == Mode::VisualLine,
        applies(c, op),
        d.wf(),
        last(d) < d.size(),
    ensures
        ({
            let l = d.line_of(last(d));
            hit(v, d, c, page, answer) == begun(v, d, c).in_mode(Mode::Normal).operate(
                Some(d),
                op,
                d.start(d.line_of(from(d))),
                if l + 1 < d.count() {
                    d.start(l + 1)
                } else {
                    d.size()
                },
                true,
            ).clear()
        }),
{
    lemma_selecting_keys(v, d, c, page, answer);
    lemma_same_count(begun(v, d, c).vim, v);
}

/// Motions move the caret of the selection and keep its anchor; `j` and `k` extend it by lines.
pub proof fn motions_extend_the_selection(v: Vim, d: &Doc, c: char, page: int, answer: &Answer)
    requires
        selecting(v),
        v.times() <= isize::MAX,
    ensures
        ({
            let s = hit(v, d, c, page, answer);
            let m = motion_to(Some(d), KeyCode::Char(c), v.typed(), page, answer.pos);
            &&& (is_motion(c) && c != 'j' && c != 'k' && m is Some) ==> s.out == seq![
                EffectView::Select { anchor: d.anchor as int, head: m.unwrap().0 },
            ] && plain(s.vim) == plain(Vim { count: None, ..v })
            &&& c == 'j' ==> s.out == seq![
                EffectView::MoveLines { delta: v.times(), extend: true },
            ]
            &&& c == 'k' ==> s.out == seq![
                EffectView::MoveLines { delta: -v.times(), extend: true },
            ]
        }),
{
    lemma_selecting_keys(v, d, c, page, answer);
    lemma_same_count(begun(v, d, c).vim, v);
    let s = hit(v, d, c, page, answer);
    let m = motion_to(Some(d), KeyCode::Char(c), v.typed(), page, answer.pos);
    if is_motion(c) && c != 'j' && c != 'k' && m is Some {
        assert(s.out =~= seq![
            EffectView::Select { anchor: d.anchor as int, head: m.unwrap().0 },
        ]);
    }
    if c == 'j' || c == 'k' {
        assert(s.out =~= seq![s.out[0]]);
    }
}

/// `o` swaps the ends; `v` and `V` change to the other mode, or leave the one that is on.
pub proof fn selection_keys(v: Vim, d: &Doc, page: int, answer: &Answer)
    requires
        selecting(v),
    ensures
        hit(v, d, 'o', page, answer).out == seq![
            EffectView::Select { anchor: d.head as int, head: d.anchor as int },
        ],
        plain(hit(v, d, 'o', page, answer).vim) == plain(v),
        hit(v, d, 'v', page, answer).vim.mode == if v.mode == Mode::Visual {
            Mode::Normal
        } else {
            Mode::Visual
        },
        hit(v, d, 'V', page, answer).vim.mode == if v.mode == Mode::VisualLine {
            Mode::Normal
        } else {
            Mode::VisualLine
        },
{
    lemma_selecting_keys(v, d, 'o', page, answer);
    lemma_selecting_keys(v, d, 'v', page, answer);
    lemma_selecting_keys(v, d, 'V', page, answer);
    lemma_same_count(begun(v, d, 'v').vim, v);
    lemma_same_count(begun(v, d, 'V').vim, v);
    assert(hit(v, d, 'o', page, answer).out =~= seq![
        EffectView::Select { anchor: d.head as int, head: d.anchor as int },
    ]);
}

/// `J` joins all the lines that the selection touches: from the first of them, one join fewer than
/// there are lines, and at least one.
pub proof fn j_joins_the_selected_lines(v: Vim, d: &Doc, page: int, answer: &Answer)
    requires
        selecting(v),
        d.wf(),
        d.count() <= usize::MAX,
    ensures
        ({
            let first = d.line_of(from(d));
            let end = d.line_of(last(d));
            let s = hit(v, d, 'J', page, answer);
            &&& s.out == seq![
                EffectView::Caret(d.start(first)),
                EffectView::JoinLines(
                    if end > first {
                        end - first
                    } else {
                        1
                    },
                ),
            ]
            &&& s.vim.mode == Mode::Normal
        }),
{
    lemma_selecting_keys(v, d, 'J', page, answer);
    lemma_same_count(begun(v, d, 'J').vim, v);
    d.lemma_line_of(from(d));
    d.lemma_line_of(last(d));
    crate::vim::shifting::lemma_lines_in_order(d, from(d), last(d));
    let first = d.line_of(from(d));
    let end = d.line_of(last(d));
    let s = hit(v, d, 'J', page, answer);
    let n = if end - first + 1 >= 2 {
        end - first + 1
    } else {
        2
    };
    assert(n * 1 == n) by (nonlinear_arith);
    assert(s.out =~= seq![
        EffectView::Caret(d.start(first)),
        EffectView::JoinLines(
            if end > first {
                end - first
            } else {
                1
            },
        ),
    ]);
}

/// `r` and a character overwrite every selected character but the line breaks, and leave the visual
/// mode.
pub proof fn r_overwrites_the_selection(v: Vim, d: &Doc, c: char, page: int, answer: &Answer)
    requires
        selecting(v),
        d.wf(),
        from(d) < d.size(),
    ensures
        ({
            let p = hit(v, d, 'r', page, answer);
            let s = hit(p.vim, d, c, page, answer);
            let text = Seq::new(
                (to(d) - from(d)) as nat,
                |i: int|
                    if d.chars@[from(d) + i] == '\n' {
                        '\n'
                    } else {
                        c
                    },
            );
            &&& p.out.len() == 0
            &&& edited(d.chars@, s.out) == with(d.chars@, from(d), to(d), text)
            &&& s.out.last() == EffectView::Caret(from(d))
            &&& s.vim.mode == Mode::Normal
        }),
{
    lemma_selecting_keys(v, d, 'r', page, answer);
    lemma_same_count(begun(v, d, 'r').vim, v);
    let p = hit(v, d, 'r', page, answer);
    lemma_overwriting(p.vim, d, c, page, answer);
    lemma_same_count(begun(p.vim, d, c).vim, p.vim);
    let s = hit(p.vim, d, c, page, answer);
    let text = Seq::new(
        (to(d) - from(d)) as nat,
        |i: int|
            if d.chars@[from(d) + i] == '\n' {
                '\n'
            } else {
                c
            },
    );
    assert(overwritten(d.slice(from(d), to(d)), c) =~= text);
    let none = Seq::<EffectView>::empty();
    let post = seq![EffectView::Caret(from(d))];
    lemma_one_edit(d, none, from(d), to(d), text, post);
    assert(s.out =~= none.push(replaced(d, from(d), to(d), text)) + post);
}

proof fn lemma_overwriting(v: Vim, d: &Doc, c: char, page: int, answer: &Answer)
    requires
        v.mode == Mode::Visual || v.mode == Mode::VisualLine,
        v.prefix == Some(Prefix::Replace),
        v.find_pending is None,
        v.command is None,
        v.search is None,
    ensures
        hit(v, d, c, page, answer) == (Step {
            vim: Vim { prefix: None, ..begun(v, d, c).vim },
            out: Seq::empty(),
        }).visual_replace(Some(d), c),
        plain(begun(v, d, c).vim) == plain(v),
{
    lemma_selecting(v, d, c, page, answer);
    reveal(Step::visual_key);
    reveal(Step::prefix_key);
}

/// Escape leaves a visual mode with the caret where it is and nothing pending.
pub proof fn escape_leaves_the_selection(v: Vim, d: &Doc, key: Key, page: int, answer: &Answer)
    requires
        v.mode == Mode::Visual || v.mode == Mode::VisualLine,
        v.command is None,
        v.search is None,
        key.code == KeyCode::Esc,
    ensures
        pressed(v, Some(d), key, page, answer).0.out == seq![EffectView::Caret(d.head as int)],
        pressed(v, Some(d), key, page, answer).0.vim.mode == Mode::Normal,
        pressed(v, Some(d), key, page, answer).0.vim.idle(),
{
    reveal(Step::visual_key);
    assert(pressed(v, Some(d), key, page, answer).0.out =~= seq![
        EffectView::Caret(d.head as int),
    ]);
}

/// Escape leaves insert mode: the caret goes one to the left, but not off its line.
pub proof fn escape_leaves_insert_mode(v: Vim, d: &Doc, key: Key, page: int, answer: &Answer)
    requires
        v.mode == Mode::Insert,
        v.command is None,
        v.search is None,
        key.code == KeyCode::Esc,
        d.wf(),
    ensures
        ({
            let s = pressed(v, Some(d), key, page, answer).0;
            let start = d.start(d.line_of(d.head as int));
            &&& s.out == seq![
                EffectView::Caret(
                    if d.head > start {
                        d.head - 1
                    } else {
                        start
                    },
                ),
            ]
            &&& s.vim.mode == Mode::Normal
            &&& pressed(v, Some(d), key, page, answer).1
        }),
{
    reveal(Step::insert_key);
    d.lemma_line_of(d.head as int);
    let s = pressed(v, Some(d), key, page, answer).0;
    assert(s.out =~= seq![s.out[0]]);
}

/// The chords of normal mode: Ctrl+R does again what was undone, Ctrl+D and Ctrl+U scroll half a page
/// down and up, Ctrl+F and Ctrl+B a page.
pub proof fn chords_scroll_and_redo(v: Vim, d: &Doc, c: char, page: int, answer: &Answer)
    requires
        v.mode == Mode::Normal,
        v.prefix is None,
        v.find_pending is None,
        v.command is None,
        v.search is None,
        2 <= page <= isize::MAX,
    ensures
        ({
            let key = Key { code: KeyCode::Char(c), ctrl: true, alt: false, shift: false };
            let out = pressed(v, Some(d), key, page, answer).0.out;
            &&& c == 'r' ==> out == seq![EffectView::ExecuteTimes("edit.redo"@, v.times())]
            &&& c == 'd' ==> out == seq![
                EffectView::MoveLines { delta: page / 2, extend: false },
            ]
            &&& c == 'u' ==> out == seq![
                EffectView::MoveLines { delta: -(page / 2), extend: false },
            ]
            &&& c == 'f' ==> out == seq![EffectView::MoveLines { delta: page, extend: false }]
            &&& c == 'b' ==> out == seq![EffectView::MoveLines { delta: -page, extend: false }]
        }),
{
    let key = Key { code: KeyCode::Char(c), ctrl: true, alt: false, shift: false };
    reveal(Step::normal_key);
    let out = pressed(v, Some(d), key, page, answer).0.out;
    if c == 'r' || c == 'd' || c == 'u' || c == 'f' || c == 'b' {
        assert(out =~= seq![out[0]]);
    }
}

/// A text object in a visual mode is selected, from its first character to its last; a character
/// search moves the caret of the selection and is remembered.
pub proof fn objects_and_searches_select(
    v: Vim,
    d: &Doc,
    c: char,
    page: int,
    answer: &Answer,
    a: usize,
    b: usize,
    p: usize,
)
    requires
        v.mode == Mode::Visual || v.mode == Mode::VisualLine,
        v.command is None,
        v.search is None,
        answer.range == Some((a, b)),
        answer.pos == Some(p),
        a < b,
    ensures
        v.find_pending is None && (v.prefix matches Some(Prefix::Object { around }))
            && object_named(KeyCode::Char(c)) is Some ==> hit(v, d, c, page, answer).out == seq![
            EffectView::Select { anchor: a as int, head: b - 1 },
        ],
        v.find_pending matches Some(fp) ==> hit(v, d, c, page, answer).out == seq![
            EffectView::Select { anchor: d.anchor as int, head: p as int },
        ] && hit(v, d, c, page, answer).vim.last_find == Some((fp, c)),
{
    lemma_selecting(v, d, c, page, answer);
    lemma_same_count(begun(v, d, c).vim, v);
    reveal(Step::visual_key);
    reveal(Step::prefix_key);
    let s = hit(v, d, c, page, answer);
    if v.find_pending is Some {
        assert(s.out =~= seq![EffectView::Select { anchor: d.anchor as int, head: p as int }]);
    } else if (v.prefix matches Some(Prefix::Object { around })) && object_named(
        KeyCode::Char(c),
    ) is Some {
        assert(s.out =~= seq![EffectView::Select { anchor: a as int, head: b - 1 }]);
    }
}

} // verus!
