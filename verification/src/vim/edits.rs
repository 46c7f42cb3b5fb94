//! What the keys of normal mode do, in terms of the text, the caret and the registers.

use vstd::prelude::*;

use crate::doc::Doc;
use crate::effect::{edited, lemma_one_edit, replaced, EffectView};
use crate::vim::edit::{indent_end, indentation};
use crate::vim::keys::{
    armed, begun, hit, key_of, lemma_a, lemma_armed, lemma_c, lemma_d, lemma_g, lemma_left, lemma_right, lemma_y, lemma_i, lemma_idle, lemma_o, lemma_prefixed, lemma_r, lemma_s, lemma_same_count, lemma_tilde, lemma_upper_a, lemma_upper_c, lemma_upper_d, lemma_upper_i, lemma_upper_o, lemma_upper_s, lemma_upper_x, lemma_x, plain, quiet,
};
use crate::vim::laws::{keeps, with, without};
use crate::vim::motion::Answer;
use crate::vim::operators::{folded, Fold};
use crate::vim::session::{register_read, Step};
use crate::vim::state::{Mode, Operator, Prefix, RegisterView, Vim};

verus! {

/// The keys of the operators.
pub open spec fn starts(c: char, op: Operator) -> bool {
    ||| c == 'd' && op == Operator::Delete
    ||| c == 'c' && op == Operator::Change
    ||| c == 'y' && op == Operator::Yank
    ||| c == '>' && op == Operator::Indent
    ||| c == '<' && op == Operator::Outdent
}

/// The keys of the operators behind `g`.
pub open spec fn starts_behind_g(c: char, op: Operator) -> bool {
    ||| c == 'u' && op == Operator::Lower
    ||| c == 'U' && op == Operator::Upper
    ||| c == '~' && op == Operator::ToggleCase
}

/// Each operator has a key of its own, which makes it pending and changes nothing else.
pub proof fn keys_start_operators(
    v: Vim,
    d: &Doc,
    c: char,
    op: Operator,
    page: int,
    answer: &Answer,
)
    requires
        quiet(v),
        starts(c, op),
    ensures
        hit(v, d, c, page, answer).out.len() == 0,
        plain(hit(v, d, c, page, answer).vim) == plain(Vim { operator: Some(op), ..v }),
{
    if c == 'd' {
        lemma_d(v, d, page, answer);
    } else if c == 'c' {
        lemma_c(v, d, page, answer);
    } else if c == 'y' {
        lemma_y(v, d, page, answer);
    } else if c == '>' {
        lemma_right(v, d, page, answer);
    } else {
        lemma_left(v, d, page, answer);
    }
}

/// The case operators have keys of their own behind `g`.
pub proof fn keys_behind_g_start_operators(
    v: Vim,
    d: &Doc,
    c: char,
    op: Operator,
    page: int,
    answer: &Answer,
)
    requires
        quiet(v),
        starts_behind_g(c, op),
    ensures
        ({
            let g = hit(v, d, 'g', page, answer);
            let s = hit(g.vim, d, c, page, answer);
            &&& g.out.len() == 0
            &&& s.out.len() == 0
            &&& plain(s.vim) == plain(Vim { operator: Some(op), ..v })
        }),
{
    lemma_g(v, d, page, answer);
    assert(hit(v, d, 'g', page, answer) == begun(v, d, 'g').with_prefix(Prefix::G)) by {
        }
    let g = hit(v, d, 'g', page, answer);
    lemma_prefixed(g.vim, d, c, page, answer, Prefix::G);
    reveal(Step::prefix_key);
}

/// An operator's key pressed again applies it to the caret's line and those below it, as many as the
/// count says and as there are.
pub proof fn doubled_keys_take_whole_lines(
    v: Vim,
    d: &Doc,
    c: char,
    op: Operator,
    page: int,
    answer: &Answer,
)
    requires
        armed(v, op),
        d.wf(),
        starts(c, op) || starts_behind_g(c, op),
    ensures
        ({
            let line = d.line_of(d.head as int);
            let n = v.times();
            let end = if line + n < d.count() {
                d.start(line + n)
            } else {
                d.size()
            };
            hit(v, d, c, page, answer) == begun(v, d, c).operate(
                Some(d),
                op,
                d.start(line),
                end,
                true,
            ).clear()
        }),
{
    lemma_armed(v, d, c, page, answer, op);
    d.lemma_line_of(d.head as int);
    lemma_same_count(begun(v, d, c).vim, v);
    reveal(Step::operator_key);
}

/// The place `n` characters behind the caret on its line, or the end of the line.
pub open spec fn ahead(d: &Doc, n: int) -> int {
    let end = d.end(d.line_of(d.head as int));
    if d.head + n <= end {
        d.head + n
    } else {
        end
    }
}

/// The insert keys go to insert mode and change no text: `i` at the caret, `a` one further on the
/// line, `I` at the first character of the line that is no blank, `A` at its end.
pub proof fn insert_keys_place_the_caret(v: Vim, d: &Doc, page: int, answer: &Answer)
    requires
        quiet(v),
    ensures
        plain(hit(v, d, 'i', page, answer).vim) == plain(Vim { mode: Mode::Insert, ..v }),
        plain(hit(v, d, 'a', page, answer).vim) == plain(Vim { mode: Mode::Insert, ..v }),
        plain(hit(v, d, 'I', page, answer).vim) == plain(Vim { mode: Mode::Insert, ..v }),
        plain(hit(v, d, 'A', page, answer).vim) == plain(Vim { mode: Mode::Insert, ..v }),
        hit(v, d, 'i', page, answer).out.len() == 0,
        hit(v, d, 'a', page, answer).out == seq![EffectView::Caret(ahead(d, 1))],
        hit(v, d, 'I', page, answer).out == seq![
            EffectView::CaretFirstNonBlank(d.line_of(d.head as int)),
        ],
        hit(v, d, 'A', page, answer).out == seq![
            EffectView::Caret(d.end(d.line_of(d.head as int))),
        ],
{
    lemma_i(v, d, page, answer);
    lemma_a(v, d, page, answer);
    lemma_upper_i(v, d, page, answer);
    lemma_upper_a(v, d, page, answer);
    assert(hit(v, d, 'a', page, answer).out =~= seq![EffectView::Caret(ahead(d, 1))]);
    assert(hit(v, d, 'I', page, answer).out =~= seq![
        EffectView::CaretFirstNonBlank(d.line_of(d.head as int)),
    ]);
    assert(hit(v, d, 'A', page, answer).out =~= seq![
        EffectView::Caret(d.end(d.line_of(d.head as int))),
    ]);
}

/// The indentation of a line is the blanks it starts with, all of them.
pub proof fn indentation_is_all_leading_blanks(d: &Doc, l: int)
    requires
        d.wf(),
        0 <= l < d.count(),
    ensures
        ({
            let t = indentation(d, l);
            let end = d.start(l) + t.len();
            &&& end <= d.end(l)
            &&& t == d.chars@.subrange(d.start(l), end)
            &&& forall|i: int| 0 <= i < t.len() ==> (#[trigger] t[i]) == ' ' || t[i] == '\t'
            &&& end == d.end(l) || (d.chars@[end] != ' ' && d.chars@[end] != '\t')
        }),
{
    assert(d.lines@[l].start + d.lines@[l].len <= d.chars@.len());
    lemma_indent_end(d.chars@, d.start(l), d.end(l));
    let e = indent_end(d.chars@, d.start(l), d.end(l));
    assert forall|i: int| 0 <= i < indentation(d, l).len() implies (#[trigger] indentation(d, l)[i])
        == ' ' || indentation(d, l)[i] == '\t' by {
        assert(indentation(d, l)[i] == d.chars@[d.start(l) + i]);
    }
}

proof fn lemma_indent_end(s: Seq<char>, i: int, end: int)
    requires
        0 <= i <= end <= s.len(),
    ensures
        i <= indent_end(s, i, end) <= end,
        forall|k: int| i <= k < indent_end(s, i, end) ==> s[k] == ' ' || s[k] == '\t',
        indent_end(s, i, end) == end || (s[indent_end(s, i, end)] != ' ' && s[indent_end(
            s,
            i,
            end,
        )] != '\t'),
    decreases end - i,
{
    if i < end && (s[i] == ' ' || s[i] == '\t') {
        lemma_indent_end(s, i + 1, end);
    }
}

/// `o` opens a line below the caret's and `O` one above it, indented as that is, with the caret
/// behind the indentation and insert mode on.
pub proof fn opening_adds_an_indented_line(v: Vim, d: &Doc, page: int, answer: &Answer)
    requires
        quiet(v),
        d.wf(),
    ensures
        ({
            let line = d.line_of(d.head as int);
            let indent = indentation(d, line);
            let below = hit(v, d, 'o', page, answer);
            let above = hit(v, d, 'O', page, answer);
            let e = d.end(line);
            let b = d.start(line);
            &&& edited(d.chars@, below.out) == with(d.chars@, e, e, seq!['\n'] + indent)
            &&& below.out.last() == EffectView::Caret(e + 1 + indent.len())
            &&& edited(d.chars@, above.out) == with(d.chars@, b, b, indent + seq!['\n'])
            &&& above.out.last() == EffectView::Caret(b + indent.len())
            &&& plain(below.vim) == plain(Vim { mode: Mode::Insert, ..v })
            &&& plain(above.vim) == plain(Vim { mode: Mode::Insert, ..v })
        }),
{
    lemma_o(v, d, page, answer);
    lemma_upper_o(v, d, page, answer);
    let line = d.line_of(d.head as int);
    d.lemma_line_of(d.head as int);
    assert(d.lines@[line].start + d.lines@[line].len <= d.chars@.len());
    let indent = indentation(d, line);
    let e = d.end(line);
    let b = d.start(line);
    let none = Seq::<EffectView>::empty();
    let p = EffectView::Caret(e + 1 + indent.len());
    let q = EffectView::Caret(b + indent.len());
    lemma_one_edit(d, none, e, e, seq!['\n'] + indent, seq![p]);
    lemma_one_edit(d, none, b, b, indent + seq!['\n'], seq![q]);
    assert(indent.push('\n') =~= indent + seq!['\n']);
    assert(hit(v, d, 'o', page, answer).out =~= none.push(replaced(d, e, e, seq!['\n'] + indent))
        + seq![p]);
    assert(hit(v, d, 'O', page, answer).out =~= none.push(replaced(d, b, b, indent + seq!['\n']))
        + seq![q]);
}

} // verus!
