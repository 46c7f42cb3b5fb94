//! Where the motions lead, and what an operator takes with each.

use vstd::prelude::*;

use crate::doc::Doc;
use crate::effect::EffectView;
use crate::key::KeyCode;
use crate::vim::cuts::behind;
use crate::vim::edits::ahead;
use crate::vim::keys::{
    armed, begun, hit, is_motion, key_of, lemma_operator_motion, lemma_plain_motion,
    lemma_same_count, plain, quiet,
};
use crate::vim::motion::{motion_query, motion_to, Answer, Query, StepKind};
use crate::vim::plugin::needed;
use crate::vim::state::{FindPending, Mode, MotionKind, Operator, Vim};

verus! {

/// The count that was typed, or one.
pub open spec fn count_of(typed: Option<int>) -> int {
    match typed {
        Some(n) => n,
        None => 1,
    }
}

/// The line `n` below line `l`, or the last.
pub open spec fn line_down(d: &Doc, l: int, n: int) -> int {
    if l + n < d.count() {
        l + n
    } else {
        d.count() - 1
    }
}

/// The line `n` above line `l`, or the first.
pub open spec fn line_up(l: int, n: int) -> int {
    if l >= n {
        l - n
    } else {
        0
    }
}

/// The place of the last character of a line, or its start where it is empty.
pub open spec fn last_on(d: &Doc, l: int) -> int {
    if d.end(l) > d.start(l) {
        d.end(l) - 1
    } else {
        d.start(l)
    }
}

/// Where the motions along the line and between lines lead: `h` and `l` by characters, without
/// leaving the line; `0` to its start, `$` to its last character, `|` to a column; `j` and `k` by
/// lines. The horizontal ones take what is between, `$` its last character too, `j` and `k` whole
/// lines.
pub proof fn motions_lead_along_lines(d: &Doc, typed: Option<int>, page: int, p: Option<usize>)
    requires
        d.wf(),
        typed is Some ==> typed.unwrap() >= 1,
        d.head <= d.end(d.line_of(d.head as int)),
    ensures
        ({
            let n = count_of(typed);
            let l = d.line_of(d.head as int);
            let to = |c: char| motion_to(Some(d), KeyCode::Char(c), typed, page, p);
            &&& to('h') == Some((behind(d, n), MotionKind::Exclusive))
            &&& to('l') == Some((ahead(d, n), MotionKind::Exclusive))
            &&& to(' ') == Some((ahead(d, n), MotionKind::Exclusive))
            &&& to('0') == Some((d.start(l), MotionKind::Exclusive))
            &&& to('$') == Some((last_on(d, line_down(d, l, n - 1)), MotionKind::Inclusive))
            &&& to('|') == Some(
                (
                    if d.start(l) + n - 1 <= d.end(l) {
                        d.start(l) + n - 1
                    } else {
                        d.end(l)
                    },
                    MotionKind::Exclusive,
                ),
            )
            &&& to('j') == Some((d.start(line_down(d, l, n)), MotionKind::Linewise))
            &&& to('k') == Some((d.start(line_up(l, n)), MotionKind::Linewise))
        }),
{
    let n = count_of(typed);
    let l = d.line_of(d.head as int);
    d.lemma_line_of(d.head as int);
    let m = line_down(d, l, n - 1);
    assert(d.lines@[l].start + d.lines@[l].len <= d.chars@.len());
    assert(d.lines@[m].start + d.lines@[m].len <= d.chars@.len());
    assert(d.lines@[line_down(d, l, n)].start <= d.chars@.len());
    assert(d.lines@[line_up(l, n)].start <= d.chars@.len());
}

/// The keys of the editor are motions too: the arrows and backspace go as `h`, `l`, `j` and `k` do,
/// Home as `0` and End as `$`.
pub proof fn arrows_move_as_letters_do(d: &Doc, typed: Option<int>, page: int, p: Option<usize>)
    ensures
        ({
            let to = |k: KeyCode| motion_to(Some(d), k, typed, page, p);
            &&& to(KeyCode::Left) == to(KeyCode::Char('h'))
            &&& to(KeyCode::Backspace) == to(KeyCode::Char('h'))
            &&& to(KeyCode::Right) == to(KeyCode::Char('l'))
            &&& to(KeyCode::Down) == to(KeyCode::Char('j'))
            &&& to(KeyCode::Up) == to(KeyCode::Char('k'))
            &&& to(KeyCode::Home) == to(KeyCode::Char('0'))
            &&& to(KeyCode::End) == to(KeyCode::Char('$'))
        }),
{
}

/// What a motion asks for: the word motions steps, forward or back, to starts or ends, of words or
/// of what whitespace separates; the braces paragraphs; `%` the partner of a bracket; the others the
/// first character of a line that is no blank.
pub proof fn motions_ask_where_to_go(d: &Doc, typed: Option<int>, page: int)
    requires
        d.wf(),
        typed is Some ==> 1 <= typed.unwrap() <= usize::MAX,
    ensures
        ({
            let n = count_of(typed) as usize;
            let l = d.line_of(d.head as int);
            let asks = |c: char| motion_query(Some(d), KeyCode::Char(c), typed, page);
            &&& asks('w') == Query::Steps { step: StepKind::WordStart { big: false }, count: n }
            &&& asks('W') == Query::Steps { step: StepKind::WordStart { big: true }, count: n }
            &&& asks('b') == Query::Steps { step: StepKind::WordStartBack { big: false }, count: n }
            &&& asks('B') == Query::Steps { step: StepKind::WordStartBack { big: true }, count: n }
            &&& asks('e') == Query::Steps { step: StepKind::WordEnd { big: false }, count: n }
            &&& asks('E') == Query::Steps { step: StepKind::WordEnd { big: true }, count: n }
            &&& asks('{') == Query::Steps { step: StepKind::ParagraphBackward, count: n }
            &&& asks('}') == Query::Steps { step: StepKind::ParagraphForward, count: n }
            &&& asks('%') == Query::Percent
            &&& asks('^') == Query::FirstNonBlank(l as usize)
            &&& typed is None ==> asks('G') == Query::FirstNonBlank((d.count() - 1) as usize)
            &&& typed is Some && n <= d.count() ==> asks('G') == Query::FirstNonBlank(
                (n - 1) as usize,
            )
        }),
{
    d.lemma_line_of(d.head as int);
}

/// `H`, `M` and `L` go to the top, the middle and the bottom of the view.
pub proof fn the_view_has_a_top_and_a_bottom(d: &Doc, page: int)
    requires
        d.wf(),
        1 <= page,
        d.scroll_line + page <= d.count(),
        d.count() <= usize::MAX,
    ensures
        ({
            let asks = |c: char| motion_query(Some(d), KeyCode::Char(c), None, page);
            &&& asks('H') == Query::FirstNonBlank(d.scroll_line)
            &&& asks('M') == Query::FirstNonBlank((d.scroll_line + page / 2) as usize)
            &&& asks('L') == Query::FirstNonBlank((d.scroll_line + page - 1) as usize)
        }),
{
}

/// What a motion that was answered takes: the word starts, paragraphs and `^` what is before the
/// answer; word ends and `%` the answer too; the lines of the view and of the text whole lines.
pub proof fn answers_are_taken_by_their_kind(
    d: &Doc,
    c: char,
    typed: Option<int>,
    page: int,
    p: usize,
)
    ensures
        c == 'w' || c == 'W' || c == 'b' || c == 'B' || c == '{' || c == '}' || c == '^'
            ==> motion_to(Some(d), KeyCode::Char(c), typed, page, Some(p)) == Some(
            (p as int, MotionKind::Exclusive),
        ),
        c == 'e' || c == 'E' || c == '%' ==> motion_to(
            Some(d),
            KeyCode::Char(c),
            typed,
            page,
            Some(p),
        ) == Some((p as int, MotionKind::Inclusive)),
        c == 'G' || c == 'H' || c == 'M' || c == 'L' ==> motion_to(
            Some(d),
            KeyCode::Char(c),
            typed,
            page,
            Some(p),
        ) == Some((p as int, MotionKind::Linewise)),
{
}

/// A motion key without an operator moves the caret where the motion leads, and nothing else; the
/// count is used up. A motion that leads nowhere is given up.
pub proof fn motions_move_the_caret(v: Vim, d: &Doc, c: char, page: int, answer: &Answer)
    requires
        quiet(v),
        (is_motion(c) && c != 'j' && c != 'k') || (c == '0' && v.count is None),
    ensures
        ({
            let s = hit(v, d, c, page, answer);
            let m = motion_to(Some(d), KeyCode::Char(c), v.typed(), page, answer.pos);
            &&& m is Some ==> s.out == seq![EffectView::Caret(m.unwrap().0)] && plain(s.vim)
                == plain(Vim { count: None, ..v })
            &&& m is None ==> s.out.len() == 0 && plain(s.vim) == plain(v.cleared())
        }),
{
    lemma_plain_motion(v, d, c, page, answer);
    lemma_same_count(begun(v, d, c).vim, v);
    let s = hit(v, d, c, page, answer);
    let m = motion_to(Some(d), KeyCode::Char(c), v.typed(), page, answer.pos);
    if m is Some {
        assert(s.out =~= seq![EffectView::Caret(m.unwrap().0)]);
    }
}

/// An operator before a motion takes what is between the caret and where the motion leads: up to the
/// further of the two, with it where the motion takes its end, and all the lines of both where it
/// takes lines.
pub proof fn operators_take_motions(
    v: Vim,
    d: &Doc,
    c: char,
    page: int,
    answer: &Answer,
    op: Operator,
)
    requires
        armed(v, op),
        is_motion(c) || (c == '0' && v.op_count is None),
        motion_to(Some(d), KeyCode::Char(c), v.typed(), page, answer.pos) is Some,
    ensures
        ({
            let m = motion_to(Some(d), KeyCode::Char(c), v.typed(), page, answer.pos).unwrap();
            let h = d.head as int;
            let lo = if m.0 < h {
                m.0
            } else {
                h
            };
            let hi = if m.0 < h {
                h
            } else {
                m.0
            };
            let s = begun(v, d, c);
            hit(v, d, c, page, answer) == (match m.1 {
                MotionKind::Exclusive => s.operate(Some(d), op, lo, hi, false),
                MotionKind::Inclusive => s.operate(
                    Some(d),
                    op,
                    lo,
                    if hi < d.size() {
                        hi + 1
                    } else {
                        d.size()
                    },
                    false,
                ),
                MotionKind::Linewise => s.operate(
                    Some(d),
                    op,
                    d.start(d.line_of(lo)),
                    if d.line_of(hi) + 1 < d.count() {
                        d.start(d.line_of(hi) + 1)
                    } else {
                        d.size()
                    },
                    true,
                ),
            }).clear()
        }),
{
    lemma_operator_motion(v, d, c, page, answer, op);
    lemma_same_count(begun(v, d, c).vim, v);
}

/// What has to be known before a key: behind a character search where it leads, behind `i` and `a` the
/// range of the object, for `*` and `#` the word, for a paste from the clipboard what that holds, and
/// for a motion where it goes; nothing for a line that is typed or in insert mode.
pub proof fn keys_need_what_they_use(v: Vim, d: &Doc, c: char, page: int, op: Operator)
    ensures
        ({
            let asks = needed(v, d, key_of(c), page);
            &&& v.mode == Mode::Insert || v.command is Some || v.search is Some ==> asks
                == Query::Nothing
            &&& v.mode == Mode::Normal && v.command is None && v.search is None
                && v.find_pending is Some ==> asks == Query::FindChar {
                kind: v.find_pending.unwrap(),
                ch: c,
            }
            &&& quiet(v) && (c == '*' || c == '#') ==> asks == Query::WordAt
            &&& quiet(v) && (c == 'p' || c == 'P') && (v.register == Some('+') || v.register == Some(
                '*',
            )) ==> asks == Query::Clipboard
            &&& quiet(v) && (c == 'p' || c == 'P') && v.register is None ==> asks == Query::Nothing
            &&& (quiet(v) || armed(v, op)) && is_motion(c) ==> asks == motion_query(
                Some(d),
                KeyCode::Char(c),
                v.typed(),
                page,
            )
            &&& quiet(v) && c == ';' && v.last_find is Some ==> asks == Query::FindChar {
                kind: v.last_find.unwrap().0,
                ch: v.last_find.unwrap().1,
            }
            &&& quiet(v) && c == ',' && v.last_find is Some ==> (asks matches Query::FindChar {
                kind,
                ch,
            } && ch == v.last_find.unwrap().1 && (v.last_find.unwrap().0 == FindPending::Find
                ==> kind == FindPending::FindBack) && (v.last_find.unwrap().0
                == FindPending::FindBack ==> kind == FindPending::Find) && (v.last_find.unwrap().0
                == FindPending::Till ==> kind == FindPending::TillBack) && (v.last_find.unwrap().0
                == FindPending::TillBack ==> kind == FindPending::Till))
        }),
{
}

} // verus!
