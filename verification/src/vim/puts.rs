//! What pasting, counting, searching and the other keys of normal mode come to.

use vstd::prelude::*;

use crate::doc::Doc;
use crate::effect::{edited, lemma_one_edit, replaced, EffectView};
use crate::key::KeyCode;
use crate::vim::edit::{
    breaks_start, copies, join_requests, line_copies, line_to_join, without_breaks,
};
use crate::vim::edits::ahead;
use crate::vim::keys::{
    armed, begun, begun_behind, hit, lemma_armed_find, lemma_armed_g, lemma_behind_g, lemma_behind_object,
    lemma_behind_quote, lemma_behind_z, lemma_colon, lemma_comma, lemma_digit, lemma_dot, lemma_f,
    lemma_finding, lemma_g, lemma_hash, lemma_j, lemma_k, lemma_n, lemma_object_prefix, lemma_p,
    lemma_question, lemma_quote, lemma_same_count, lemma_semicolon, lemma_slash, lemma_star,
    lemma_t, lemma_u, lemma_upper_f, lemma_upper_j, lemma_upper_n, lemma_upper_p, lemma_upper_t,
    lemma_upper_v, lemma_v, lemma_z, plain, quiet,
};
use crate::vim::laws::with;
use crate::vim::motion::{Answer, TextObject};
use crate::vim::normal::object_named;
use crate::vim::search::found;
use crate::vim::session::{register_read, Step};
use crate::vim::state::{FindPending, Mode, Operator, Vim};

verus! {

/// Text that was not taken by lines is put in at the caret by `P` and behind the character at the
/// caret by `p`, as often as the count says; the caret goes to its last character.
pub proof fn pasting_puts_text_in(v: Vim, d: &Doc, page: int, answer: &Answer)
    requires
        quiet(v),
        d.wf(),
        d.head <= d.end(d.line_of(d.head as int)),
        register_read(v, v.register, answer.text@).text.len() > 0,
        !register_read(v, v.register, answer.text@).linewise,
        d.size() + copies(register_read(v, v.register, answer.text@).text, v.times()).len()
            <= usize::MAX,
    ensures
        ({
            let text = copies(register_read(v, v.register, answer.text@).text, v.times());
            let p = hit(v, d, 'p', page, answer);
            let q = hit(v, d, 'P', page, answer);
            let a = ahead(d, 1);
            let h = d.head as int;
            &&& edited(d.chars@, p.out) == with(d.chars@, a, a, text)
            &&& edited(d.chars@, q.out) == with(d.chars@, h, h, text)
            &&& p.out.last() == EffectView::Caret(a + text.len() - 1)
            &&& q.out.last() == EffectView::Caret(h + text.len() - 1)
            &&& plain(p.vim) == plain(v.cleared())
            &&& plain(q.vim) == plain(v.cleared())
        }),
{
    lemma_p(v, d, page, answer);
    lemma_upper_p(v, d, page, answer);
    lemma_same_count(begun(v, d, 'p').vim, v);
    lemma_same_count(begun(v, d, 'P').vim, v);
    let text = copies(register_read(v, v.register, answer.text@).text, v.times());
    let line = d.line_of(d.head as int);
    d.lemma_line_of(d.head as int);
    assert(d.lines@[line].start + d.lines@[line].len <= d.chars@.len());
    let a = ahead(d, 1);
    let h = d.head as int;
    let none = Seq::<EffectView>::empty();
    let ps = seq![EffectView::Caret(a + text.len() - 1)];
    let qs = seq![EffectView::Caret(h + text.len() - 1)];
    lemma_one_edit(d, none, a, a, text, ps);
    lemma_one_edit(d, none, h, h, text, qs);
    assert(hit(v, d, 'p', page, answer).out =~= none.push(replaced(d, a, a, text)) + ps);
    assert(hit(v, d, 'P', page, answer).out =~= none.push(replaced(d, h, h, text)) + qs);
}

/// Text that was taken by lines is put in on lines of its own, below the caret's line by `p` and above
/// it by `P`, as often as the count says.
pub proof fn pasting_puts_lines_in(v: Vim, d: &Doc, page: int, answer: &Answer)
    requires
        quiet(v),
        d.wf(),
        register_read(v, v.register, answer.text@).text.len() > 0,
        register_read(v, v.register, answer.text@).linewise,
    ensures
        ({
            let taken = register_read(v, v.register, answer.text@).text;
            let block = line_copies(without_breaks(taken), v.times());
            let p = hit(v, d, 'p', page, answer);
            let q = hit(v, d, 'P', page, answer);
            let line = d.line_of(d.head as int);
            let e = d.end(line);
            let b = d.start(line);
            &&& edited(d.chars@, p.out) == with(d.chars@, e, e, seq!['\n'] + block)
            &&& edited(d.chars@, q.out) == with(d.chars@, b, b, block + seq!['\n'])
            &&& p.out.last() == EffectView::CaretFirstNonBlank(line + 1)
            &&& q.out.last() == EffectView::CaretFirstNonBlank(line)
            &&& plain(p.vim) == plain(v.cleared())
            &&& plain(q.vim) == plain(v.cleared())
        }),
{
    lemma_p(v, d, page, answer);
    lemma_upper_p(v, d, page, answer);
    lemma_same_count(begun(v, d, 'p').vim, v);
    lemma_same_count(begun(v, d, 'P').vim, v);
    let taken = register_read(v, v.register, answer.text@).text;
    let block = line_copies(without_breaks(taken), v.times());
    let line = d.line_of(d.head as int);
    d.lemma_line_of(d.head as int);
    assert(d.lines@[line].start + d.lines@[line].len <= d.chars@.len());
    let e = d.end(line);
    let b = d.start(line);
    let none = Seq::<EffectView>::empty();
    let ps = seq![EffectView::CaretFirstNonBlank(line + 1)];
    let qs = seq![EffectView::CaretFirstNonBlank(line)];
    assert(block.push('\n') =~= block + seq!['\n']);
    lemma_one_edit(d, none, e, e, seq!['\n'] + block, ps);
    lemma_one_edit(d, none, b, b, block + seq!['\n'], qs);
    assert(hit(v, d, 'p', page, answer).out =~= none.push(replaced(d, e, e, seq!['\n'] + block))
        + ps);
    assert(hit(v, d, 'P', page, answer).out =~= none.push(replaced(d, b, b, block + seq!['\n']))
        + qs);
}

/// Nothing is pasted from an empty register.
pub proof fn an_empty_register_pastes_nothing(v: Vim, d: &Doc, page: int, answer: &Answer)
    requires
        quiet(v),
        register_read(v, v.register, answer.text@).text.len() == 0,
    ensures
        hit(v, d, 'p', page, answer).out.len() == 0,
        hit(v, d, 'P', page, answer).out.len() == 0,
{
    lemma_p(v, d, page, answer);
    lemma_upper_p(v, d, page, answer);
    lemma_same_count(begun(v, d, 'p').vim, v);
    lemma_same_count(begun(v, d, 'P').vim, v);
}

/// Copies are as many as asked for: every place of `n` copies holds what the same place of one copy
/// does.
pub proof fn copies_repeat_the_text(s: Seq<char>, n: int, k: int, i: int)
    requires
        0 <= k < n,
        0 <= i < s.len(),
    ensures
        copies(s, n).len() == n * s.len(),
        0 <= k * s.len() + i < n * s.len(),
        copies(s, n)[k * s.len() + i] == s[i],
    decreases n,
{
    lemma_copies_len(s, n - 1);
    lemma_copies_len(s, n);
    let m = s.len() as int;
    assert(0 <= k * m + i < n * m) by (nonlinear_arith)
        requires
            0 <= k < n,
            0 <= i < m,
    ;
    if k < n - 1 {
        copies_repeat_the_text(s, n - 1, k, i);
        assert(k * m + i < (n - 1) * m) by (nonlinear_arith)
            requires
                0 <= k < n - 1,
                0 <= i < m,
        ;
    } else {
        assert(k * m + i - (n - 1) * m == i) by (nonlinear_arith)
            requires
                k == n - 1,
        ;
    }
}

proof fn lemma_copies_len(s: Seq<char>, n: int)
    requires
        n >= 0,
    ensures
        copies(s, n).len() == n * s.len(),
    decreases n,
{
    if n > 0 {
        lemma_copies_len(s, n - 1);
        assert((n - 1) * s.len() + s.len() == n * s.len()) by (nonlinear_arith);
    } else {
        assert(0 * s.len() == 0) by (nonlinear_arith);
    }
}

/// Line copies are the text and, behind a line break each, the others; without its breaks a text is
/// what is before the breaks at its end, all of them.
pub proof fn line_copies_are_on_lines(s: Seq<char>, n: int)
    requires
        n >= 1,
    ensures
        line_copies(s, 1) == s,
        line_copies(s, n + 1) == line_copies(s, n) + seq!['\n'] + s,
        ({
            let t = without_breaks(s);
            &&& t.len() <= s.len()
            &&& t == s.take(t.len() as int)
            &&& forall|i: int| t.len() <= i < s.len() ==> s[i] == '\n'
            &&& t.len() > 0 ==> t.last() != '\n'
        }),
{
    assert(line_copies(s, n).push('\n') + s =~= line_copies(s, n) + seq!['\n'] + s);
    lemma_breaks(s, s.len() as int);
}

proof fn lemma_breaks(s: Seq<char>, n: int)
    requires
        0 <= n <= s.len(),
        forall|i: int| n <= i < s.len() ==> s[i] == '\n',
    ensures
        0 <= breaks_start(s, n) <= n,
        forall|i: int| breaks_start(s, n) <= i < s.len() ==> s[i] == '\n',
        breaks_start(s, n) > 0 ==> s[breaks_start(s, n) - 1] != '\n',
    decreases n,
{
    if 0 < n && s[n - 1] == '\n' {
        lemma_breaks(s, n - 1);
    }
}

/// Digits make a number, in the order they are typed: the count in front of an operator, or the one
/// behind it.
pub proof fn digits_make_a_count(v: Vim, d: &Doc, c: char, page: int, answer: &Answer)
    requires
        quiet(v) || (v.operator is Some && armed(v, v.operator.unwrap())),
        '1' <= c <= '9' || (c == '0' && v.counting()),
    ensures
        ({
            let s = hit(v, d, c, page, answer);
            let before = if v.operator is Some {
                v.op_count
            } else {
                v.count
            };
            let old = match before {
                Some(n) => n as int,
                None => 0,
            };
            let n = 10 * old + (c as int - '0' as int);
            &&& s.out.len() == 0
            &&& n <= usize::MAX && v.operator is None ==> plain(s.vim) == plain(
                Vim { count: Some(n as usize), ..v },
            )
            &&& n <= usize::MAX && v.operator is Some ==> plain(s.vim) == plain(
                Vim { op_count: Some(n as usize), ..v },
            )
        }),
{
    lemma_digit(v, d, c, page, answer);
    lemma_same_count(begun(v, d, c).vim, v);
}

/// A quote and a character choose the register for the next command.
pub proof fn quotes_choose_the_register(v: Vim, d: &Doc, c: char, page: int, answer: &Answer)
    requires
        quiet(v),
    ensures
        ({
            let q = hit(v, d, '"', page, answer);
            let s = hit(q.vim, d, c, page, answer);
            &&& q.out.len() == 0
            &&& s.out.len() == 0
            &&& plain(s.vim) == plain(Vim { register: Some(c), ..v })
        }),
{
    lemma_quote(v, d, page, answer);
    let q = hit(v, d, '"', page, answer);
    lemma_behind_quote(q.vim, d, c, page, answer);
}

/// `u` undoes as often as the count says; `J` joins as many lines as the count says, and at least
/// two; `j` and `k` move by lines.
pub proof fn counted_keys_repeat(v: Vim, d: &Doc, page: int, answer: &Answer)
    requires
        quiet(v),
        v.times() <= isize::MAX,
    ensures
        ({
            let n = v.times();
            &&& hit(v, d, 'u', page, answer).out == seq![
                EffectView::ExecuteTimes("edit.undo"@, n),
            ]
            &&& hit(v, d, 'J', page, answer).out == seq![
                EffectView::JoinLines(
                    if n >= 2 {
                        n - 1
                    } else {
                        1
                    },
                ),
            ]
            &&& hit(v, d, 'j', page, answer).out == seq![
                EffectView::MoveLines { delta: n, extend: false },
            ]
            &&& hit(v, d, 'k', page, answer).out == seq![
                EffectView::MoveLines { delta: -n, extend: false },
            ]
            &&& plain(hit(v, d, 'u', page, answer).vim) == plain(v.cleared())
            &&& plain(hit(v, d, 'J', page, answer).vim) == plain(v.cleared())
            &&& plain(hit(v, d, 'j', page, answer).vim) == plain(Vim { count: None, ..v })
            &&& plain(hit(v, d, 'k', page, answer).vim) == plain(Vim { count: None, ..v })
        }),
{
    lemma_u(v, d, page, answer);
    lemma_upper_j(v, d, page, answer);
    lemma_j(v, d, page, answer);
    lemma_k(v, d, page, answer);
    lemma_same_count(begun(v, d, 'u').vim, v);
    lemma_same_count(begun(v, d, 'J').vim, v);
    lemma_same_count(begun(v, d, 'j').vim, v);
    lemma_same_count(begun(v, d, 'k').vim, v);
    let n = v.times();
    assert(hit(v, d, 'u', page, answer).out =~= seq![EffectView::ExecuteTimes("edit.undo"@, n)]);
    assert(hit(v, d, 'J', page, answer).out =~= seq![
        EffectView::JoinLines(
            if n >= 2 {
                n - 1
            } else {
                1
            },
        ),
    ]);
    assert(hit(v, d, 'j', page, answer).out =~= seq![
        EffectView::MoveLines { delta: n, extend: false },
    ]);
    assert(hit(v, d, 'k', page, answer).out =~= seq![
        EffectView::MoveLines { delta: -n, extend: false },
    ]);
}

/// The dot presses the last change again, as often as the count says, and does nothing where there is
/// none.
pub proof fn the_dot_repeats_the_last_change(v: Vim, d: &Doc, page: int, answer: &Answer)
    requires
        quiet(v),
        !v.replaying,
    ensures
        ({
            let s = hit(v, d, '.', page, answer);
            &&& v.last_change.len() > 0 ==> s.out == seq![EffectView::Replay(v.times())]
                && s.vim.replaying && s.vim.last_change == v.last_change
            &&& v.last_change.len() == 0 ==> s.out.len() == 0 && !s.vim.replaying
            &&& s.vim.recording is None
        }),
{
    lemma_dot(v, d, page, answer);
    lemma_same_count(begun(v, d, '.').vim, v);
    let s = hit(v, d, '.', page, answer);
    if v.last_change.len() > 0 {
        assert(s.out =~= seq![EffectView::Replay(v.times())]);
    }
}

/// `v` and `V` start a selection at the caret, by characters and by lines.
pub proof fn v_starts_a_selection(v: Vim, d: &Doc, page: int, answer: &Answer)
    requires
        quiet(v),
    ensures
        hit(v, d, 'v', page, answer).out == seq![
            EffectView::Select { anchor: d.head as int, head: d.head as int },
        ],
        hit(v, d, 'V', page, answer).out == seq![
            EffectView::Select { anchor: d.head as int, head: d.head as int },
        ],
        plain(hit(v, d, 'v', page, answer).vim) == plain(Vim { mode: Mode::Visual, ..v }),
        plain(hit(v, d, 'V', page, answer).vim) == plain(Vim { mode: Mode::VisualLine, ..v }),
{
    lemma_v(v, d, page, answer);
    lemma_upper_v(v, d, page, answer);
    lemma_same_count(begun(v, d, 'v').vim, v);
    lemma_same_count(begun(v, d, 'V').vim, v);
    assert(hit(v, d, 'v', page, answer).out =~= seq![
        EffectView::Select { anchor: d.head as int, head: d.head as int },
    ]);
    assert(hit(v, d, 'V', page, answer).out =~= seq![
        EffectView::Select { anchor: d.head as int, head: d.head as int },
    ]);
}

/// `:` opens an empty command line, `/` and `?` an empty search line, forward and backward.
pub proof fn lines_open_empty(v: Vim, d: &Doc, page: int, answer: &Answer)
    requires
        quiet(v),
    ensures
        hit(v, d, ':', page, answer).vim.command == Some(Seq::<char>::empty()),
        hit(v, d, '/', page, answer).vim.search == Some((true, Seq::<char>::empty())),
        hit(v, d, '?', page, answer).vim.search == Some((false, Seq::<char>::empty())),
        hit(v, d, ':', page, answer).out.len() == 0,
        hit(v, d, '/', page, answer).out.len() == 0,
        hit(v, d, '?', page, answer).out.len() == 0,
{
    lemma_colon(v, d, page, answer);
    lemma_slash(v, d, page, answer);
    lemma_question(v, d, page, answer);
}

/// `n` searches again in the direction of the last search, and `N` the other way; the caret goes to
/// the place found.
pub proof fn n_searches_again(
    v: Vim,
    d: &Doc,
    forward: bool,
    pat: Seq<char>,
    page: int,
    answer: &Answer,
)
    requires
        quiet(v),
        v.last_search == Some((forward, pat)),
    ensures
        ({
            let on = found(d.chars@, pat, d.head + 1, true);
            let back = found(
                d.chars@,
                pat,
                if d.head > 0 {
                    d.head - 1
                } else {
                    0
                },
                false,
            );
            let same_way = if forward {
                on
            } else {
                back
            };
            let other_way = if forward {
                back
            } else {
                on
            };
            &&& same_way is Some ==> hit(v, d, 'n', page, answer).out == seq![
                EffectView::Caret(same_way.unwrap()),
            ]
            &&& other_way is Some ==> hit(v, d, 'N', page, answer).out == seq![
                EffectView::Caret(other_way.unwrap()),
            ]
            &&& same_way is None ==> hit(v, d, 'n', page, answer).out == seq![
                EffectView::Notify("Pattern not found: "@ + pat),
            ]
        }),
{
    lemma_n(v, d, page, answer);
    lemma_upper_n(v, d, page, answer);
    lemma_same_count(begun(v, d, 'n').vim, v);
    lemma_same_count(begun(v, d, 'N').vim, v);
    let s = hit(v, d, 'n', page, answer);
    let t = hit(v, d, 'N', page, answer);
    assert(s.out =~= seq![s.out[0]]);
    assert(t.out =~= seq![t.out[0]]);
}

/// `*` searches forward for the word at the caret, `#` backward; the word becomes the last search.
pub proof fn star_searches_for_the_word(
    v: Vim,
    d: &Doc,
    page: int,
    answer: &Answer,
    a: usize,
    b: usize,
)
    requires
        quiet(v),
        answer.range == Some((a, b)),
        a < b <= d.size(),
        !crate::text::is_blank(d.chars@.subrange(a as int, b as int)),
    ensures
        hit(v, d, '*', page, answer).vim.last_search == Some(
            (true, d.chars@.subrange(a as int, b as int)),
        ),
        hit(v, d, '#', page, answer).vim.last_search == Some(
            (false, d.chars@.subrange(a as int, b as int)),
        ),
        ({
            let word = d.chars@.subrange(a as int, b as int);
            let p = found(d.chars@, word, d.head + 1, true);
            p is Some ==> hit(v, d, '*', page, answer).out == seq![EffectView::Caret(p.unwrap())]
        }),
{
    lemma_star(v, d, page, answer);
    lemma_hash(v, d, page, answer);
    assert(d.slice(a as int, b as int) =~= d.chars@.subrange(a as int, b as int));
    let s = hit(v, d, '*', page, answer);
    assert(s.out =~= seq![s.out[0]]);
}

/// The keys of the character searches.
pub open spec fn finds(c: char, fp: FindPending) -> bool {
    ||| c == 'f' && fp == FindPending::Find
    ||| c == 'F' && fp == FindPending::FindBack
    ||| c == 't' && fp == FindPending::Till
    ||| c == 'T' && fp == FindPending::TillBack
}

/// A character search waits for the character and moves the caret where it leads; it is remembered for
/// `;` and `,`.
pub proof fn character_searches_move_the_caret(
    v: Vim,
    d: &Doc,
    k: char,
    fp: FindPending,
    c: char,
    page: int,
    answer: &Answer,
)
    requires
        quiet(v),
        finds(k, fp),
    ensures
        ({
            let w = hit(v, d, k, page, answer);
            let s = hit(w.vim, d, c, page, answer);
            &&& w.out.len() == 0
            &&& w.vim.find_pending == Some(fp)
            &&& s.vim.last_find == Some((fp, c))
            &&& answer.pos is Some ==> s.out == seq![
                EffectView::Caret(answer.pos.unwrap() as int),
            ]
            &&& answer.pos is None ==> s.out.len() == 0
        }),
{
    if k == 'f' {
        lemma_f(v, d, page, answer);
    } else if k == 'F' {
        lemma_upper_f(v, d, page, answer);
    } else if k == 't' {
        lemma_t(v, d, page, answer);
    } else {
        lemma_upper_t(v, d, page, answer);
    }
    let w = hit(v, d, k, page, answer);
    lemma_finding(w.vim, d, c, fp, page, answer);
    lemma_same_count(begun(w.vim, d, c).vim, w.vim);
    let s = hit(w.vim, d, c, page, answer);
    if answer.pos is Some {
        assert(s.out =~= seq![EffectView::Caret(answer.pos.unwrap() as int)]);
    }
}

/// `;` and `,` go where the remembered search leads; they do not change what is remembered.
pub proof fn searches_are_repeated(v: Vim, d: &Doc, page: int, answer: &Answer)
    requires
        quiet(v),
        v.last_find is Some,
        answer.pos is Some,
    ensures
        hit(v, d, ';', page, answer).out == seq![EffectView::Caret(answer.pos.unwrap() as int)],
        hit(v, d, ',', page, answer).out == seq![EffectView::Caret(answer.pos.unwrap() as int)],
        hit(v, d, ';', page, answer).vim.last_find == v.last_find,
        hit(v, d, ',', page, answer).vim.last_find == v.last_find,
{
    lemma_semicolon(v, d, page, answer);
    lemma_comma(v, d, page, answer);
    lemma_same_count(begun(v, d, ';').vim, v);
    lemma_same_count(begun(v, d, ',').vim, v);
    assert(hit(v, d, ';', page, answer).out =~= seq![
        EffectView::Caret(answer.pos.unwrap() as int),
    ]);
    assert(hit(v, d, ',', page, answer).out =~= seq![
        EffectView::Caret(answer.pos.unwrap() as int),
    ]);
}

/// An operator and a text object: the operator is applied to the range of the object, by lines where
/// it is a paragraph.
pub proof fn operators_take_objects(
    v: Vim,
    d: &Doc,
    op: Operator,
    k: char,
    c: char,
    object: TextObject,
    page: int,
    answer: &Answer,
    a: usize,
    b: usize,
)
    requires
        armed(v, op),
        k == 'i' || k == 'a',
        object_named(KeyCode::Char(c)) == Some(object),
        answer.range == Some((a, b)),
    ensures
        ({
            let w = hit(v, d, k, page, answer);
            let s = hit(w.vim, d, c, page, answer);
            &&& w.out.len() == 0
            &&& s == begun_behind(w.vim, d, c).operate(
                Some(d),
                op,
                a as int,
                b as int,
                c == 'p',
            ).clear()
        }),
{
    lemma_object_prefix(v, d, k, page, answer, op);
    let w = hit(v, d, k, page, answer);
    lemma_same_count(begun(v, d, k).vim, v);
    lemma_behind_object(w.vim, d, c, k == 'a', object, page, answer);
    lemma_same_count(begun(w.vim, d, c).vim, w.vim);
}

/// `gI` inserts at the start of the line; `gg` goes by lines, `ge` and `g_` to characters.
pub proof fn keys_behind_g(v: Vim, d: &Doc, page: int, answer: &Answer, p: usize)
    requires
        quiet(v),
        answer.pos == Some(p),
    ensures
        ({
            let g = hit(v, d, 'g', page, answer);
            let i = hit(g.vim, d, 'I', page, answer);
            &&& g.out.len() == 0
            &&& i.out == seq![EffectView::Caret(d.start(d.line_of(d.head as int)))]
            &&& i.vim.mode == Mode::Insert
            &&& hit(g.vim, d, 'g', page, answer).out == seq![EffectView::Caret(p as int)]
            &&& hit(g.vim, d, 'e', page, answer).out == seq![EffectView::Caret(p as int)]
            &&& hit(g.vim, d, '_', page, answer).out == seq![EffectView::Caret(p as int)]
        }),
{
    lemma_g(v, d, page, answer);
    let g = hit(v, d, 'g', page, answer);
    lemma_same_count(begun(v, d, 'g').vim, v);
    lemma_behind_g(g.vim, d, 'I', page, answer);
    lemma_behind_g(g.vim, d, 'g', page, answer);
    lemma_behind_g(g.vim, d, 'e', page, answer);
    lemma_behind_g(g.vim, d, '_', page, answer);
    lemma_same_count(begun(g.vim, d, 'I').vim, g.vim);
    lemma_same_count(begun(g.vim, d, 'g').vim, g.vim);
    lemma_same_count(begun(g.vim, d, 'e').vim, g.vim);
    lemma_same_count(begun(g.vim, d, '_').vim, g.vim);
    assert(hit(g.vim, d, 'I', page, answer).out =~= seq![
        EffectView::Caret(d.start(d.line_of(d.head as int))),
    ]);
    assert(hit(g.vim, d, 'g', page, answer).out =~= seq![EffectView::Caret(p as int)]);
    assert(hit(g.vim, d, 'e', page, answer).out =~= seq![EffectView::Caret(p as int)]);
    assert(hit(g.vim, d, '_', page, answer).out =~= seq![EffectView::Caret(p as int)]);
}

/// `zt`, `zz` and `zb` scroll the caret's line to the top, the middle and the bottom of the view,
/// without leaving the text.
pub proof fn z_keys_scroll_the_caret_line(v: Vim, d: &Doc, page: int, answer: &Answer)
    requires
        quiet(v),
        d.wf(),
        page >= 1,
    ensures
        ({
            let z = hit(v, d, 'z', page, answer);
            let line = d.line_of(d.head as int);
            let up = |n: int|
                if line >= n {
                    line - n
                } else {
                    0
                };
            &&& hit(z.vim, d, 't', page, answer).out == seq![EffectView::SetScroll(line)]
            &&& hit(z.vim, d, 'z', page, answer).out == seq![EffectView::SetScroll(up(page / 2))]
            &&& hit(z.vim, d, 'b', page, answer).out == seq![EffectView::SetScroll(up(page - 1))]
        }),
{
    lemma_z(v, d, page, answer);
    let z = hit(v, d, 'z', page, answer);
    lemma_same_count(begun(v, d, 'z').vim, v);
    lemma_behind_z(z.vim, d, 't', page, answer);
    lemma_behind_z(z.vim, d, 'z', page, answer);
    lemma_behind_z(z.vim, d, 'b', page, answer);
    d.lemma_line_of(d.head as int);
    let line = d.line_of(d.head as int);
    let up = |n: int|
        if line >= n {
            line - n
        } else {
            0
        };
    assert(hit(z.vim, d, 't', page, answer).out =~= seq![EffectView::SetScroll(line)]);
    assert(hit(z.vim, d, 'z', page, answer).out =~= seq![EffectView::SetScroll(up(page / 2))]);
    assert(hit(z.vim, d, 'b', page, answer).out =~= seq![EffectView::SetScroll(up(page - 1))]);
}

/// Joining takes the line break and the indentation behind it away and puts one blank in their place,
/// or nothing where the caret's line is empty; the caret goes there.
pub proof fn joining_leaves_one_blank(d: &Doc, next: int)
    requires
        d.wf(),
        d.end(d.line_of(d.head as int)) <= next <= d.size(),
    ensures
        ({
            let l = d.line_of(d.head as int);
            let e = d.end(l);
            let out = join_requests(d, next);
            &&& d.start(l) < e ==> edited(d.chars@, out) == with(d.chars@, e, next, seq![' '])
            &&& d.start(l) == e ==> edited(d.chars@, out) == with(
                d.chars@,
                e,
                next,
                Seq::empty(),
            )
            &&& out.last() == EffectView::Caret(e)
            &&& line_to_join(d) == if l + 1 < d.count() {
                Some(l + 1)
            } else {
                None
            }
        }),
{
    let l = d.line_of(d.head as int);
    d.lemma_line_of(d.head as int);
    let e = d.end(l);
    let none = Seq::<EffectView>::empty();
    let text = if d.start(l) == e {
        Seq::empty()
    } else {
        seq![' ']
    };
    lemma_one_edit(d, none, e, next, text, seq![EffectView::Caret(e)]);
    assert(join_requests(d, next) =~= none.push(replaced(d, e, next, text)) + seq![
        EffectView::Caret(e),
    ]);
}

/// An operator before a character search takes what is up to where it leads: with the character there
/// for a search forward, without the one at the caret for a search back.
pub proof fn operators_take_character_searches(
    v: Vim,
    d: &Doc,
    k: char,
    fp: FindPending,
    c: char,
    page: int,
    answer: &Answer,
    op: Operator,
    p: usize,
)
    requires
        armed(v, op),
        finds(k, fp),
        answer.pos == Some(p),
        p < d.size(),
        d.head <= d.size(),
    ensures
        ({
            let w = hit(v, d, k, page, answer);
            let s = hit(w.vim, d, c, page, answer);
            let from = Step {
                vim: Vim {
                    find_pending: None,
                    last_find: Some((fp, c)),
                    ..begun(w.vim, d, c).vim
                },
                out: Seq::empty(),
            };
            &&& w.out.len() == 0
            &&& (k == 'f' || k == 't') && p >= d.head ==> s == from.operate(
                Some(d),
                op,
                d.head as int,
                p + 1,
                false,
            ).clear()
            &&& (k == 'F' || k == 'T') && p <= d.head ==> s == from.operate(
                Some(d),
                op,
                p as int,
                d.head as int,
                false,
            ).clear()
        }),
{
    lemma_armed_find(v, d, k, fp, page, answer, op);
    lemma_same_count(begun(v, d, k).vim, v);
    let w = hit(v, d, k, page, answer);
    lemma_finding(w.vim, d, c, fp, page, answer);
    lemma_same_count(begun(w.vim, d, c).vim, w.vim);
}

/// An operator before `gg` takes whole lines, from the one it goes back to up to the caret's; before
/// `ge` it takes the characters from there to the caret, with the one at the caret.
pub proof fn operators_take_motions_behind_g(
    v: Vim,
    d: &Doc,
    page: int,
    answer: &Answer,
    op: Operator,
    p: usize,
)
    requires
        armed(v, op),
        d.wf(),
        answer.pos == Some(p),
        p <= d.head,
        d.head < d.size(),
    ensures
        ({
            let g = hit(v, d, 'g', page, answer);
            let l = d.line_of(d.head as int);
            &&& g.out.len() == 0
            &&& hit(g.vim, d, 'g', page, answer) == begun_behind(g.vim, d, 'g').operate(
                Some(d),
                op,
                d.start(d.line_of(p as int)),
                if l + 1 < d.count() {
                    d.start(l + 1)
                } else {
                    d.size()
                },
                true,
            ).clear()
            &&& hit(g.vim, d, 'e', page, answer) == begun_behind(g.vim, d, 'e').operate(
                Some(d),
                op,
                p as int,
                d.head + 1,
                false,
            ).clear()
        }),
{
    lemma_armed_g(v, d, page, answer, op);
    lemma_same_count(begun(v, d, 'g').vim, v);
    let g = hit(v, d, 'g', page, answer);
    lemma_behind_g(g.vim, d, 'g', page, answer);
    lemma_behind_g(g.vim, d, 'e', page, answer);
    lemma_same_count(begun(g.vim, d, 'g').vim, g.vim);
    lemma_same_count(begun(g.vim, d, 'e').vim, g.vim);
}

} // verus!
