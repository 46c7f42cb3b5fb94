//! Visual and visual-line mode: selection extension, operators, `r` and `J` over a range.

use vstd::prelude::*;

use crate::doc::{
    greater, head_of, lesser, max_of, min_of, minus, minus_of, opt_wf, primary_head, sum_within,
    Doc,
};
use crate::effect::{replaced, replacing, Effect, EffectView};
use crate::text::chars_of;
use crate::vim::session::{Session, Step};
use crate::vim::state::{Mode, MotionKind, Operator, Vim};

verus! {

/// The selected characters: from, to.
pub open spec fn selected(d: &Doc) -> (int, int) {
    let lo = lesser(d.anchor as int, d.head as int);
    let hi = greater(d.anchor as int, d.head as int);
    (lo, lesser(hi + 1, d.size()))
}

/// Every character replaced by `ch`, line breaks kept.
pub open spec fn overwritten(s: Seq<char>, ch: char) -> Seq<char> {
    s.map_values(
        |c: char|
            if c == '\n' {
                '\n'
            } else {
                ch
            },
    )
}

impl Step {
    /// Into a visual mode, or out of it where it is the active one.
    pub open spec fn enter_visual(self, d: Option<&Doc>, mode: Mode) -> Step {
        if self.vim.mode == mode {
            self.in_mode(Mode::Normal).ask(EffectView::Caret(head_of(d)))
        } else {
            self.in_mode(mode).ask(EffectView::Select { anchor: head_of(d), head: head_of(d) })
        }
    }

    /// The ends of the selection swapped.
    pub open spec fn swap_ends(self, d: Option<&Doc>) -> Step {
        match d {
            None => self,
            Some(d) => self.ask(
                EffectView::Select { anchor: d.head as int, head: d.anchor as int },
            ),
        }
    }

    /// The selected lines joined.
    pub open spec fn join_selected(self, d: Option<&Doc>) -> Step {
        let lines = match d {
            None => (0, 1),
            Some(d) => {
                let first = d.line_of(lesser(d.anchor as int, d.head as int));
                let last = d.line_of(greater(d.anchor as int, d.head as int));
                (d.start(first), last - first + 1)
            },
        };
        Step {
            vim: Vim {
                mode: Mode::Normal,
                count: Some(greater(lines.1, 2) as usize),
                ..self.vim
            },
            out: self.out.push(EffectView::Caret(lines.0)),
        }.join_lines()
    }

    /// The selected characters replaced.
    pub open spec fn visual_replace(self, d: Option<&Doc>, ch: char) -> Step {
        let s = self.in_mode(Mode::Normal);
        (match d {
            None => s,
            Some(d) => {
                let r = selected(d);
                if r.0 >= r.1 {
                    s
                } else {
                    s.ask(replaced(d, r.0, r.1, overwritten(d.slice(r.0, r.1), ch))).ask(
                        EffectView::Caret(r.0),
                    )
                }
            },
        }).clear()
    }

    /// An operator applied to the selection, and the visual mode left.
    pub open spec fn visual_operator(self, d: Option<&Doc>, op: Operator) -> Step {
        let linewise = self.vim.mode == Mode::VisualLine;
        let s = self.in_mode(Mode::Normal);
        match d {
            None => s,
            Some(doc) => {
                let r = selected(doc);
                (if linewise {
                    s.operate_over(
                        d,
                        op,
                        r.0,
                        greater(minus(r.1, 1), r.0),
                        MotionKind::Linewise,
                    )
                } else {
                    s.operate(d, op, r.0, r.1, false)
                }).clear()
            },
        }
    }
}

fn selection(d: &Doc) -> (r: (usize, usize))
    requires
        d.wf(),
    ensures
        (r.0 as int, r.1 as int) == selected(d),
        r.0 <= d.chars@.len(),
        r.1 <= d.chars@.len(),
{
    let lo: usize = min_of(d.anchor, d.head);
    let hi: usize = max_of(d.anchor, d.head);
    (lo, sum_within(hi, 1, d.chars.len()))
}

fn overwrite(s: &str, ch: char) -> (r: String)
    ensures
        r@ == overwritten(s@, ch),
{
    let cs: Vec<char> = chars_of(s);
    let mut out: String = String::new();
    let mut i: usize = 0;
    while i < cs.len()
        invariant
            i <= cs.len(),
            cs@ == s@,
            out@.len() == i,
            forall|k: int|
                0 <= k < i ==> out@[k] == (if cs@[k] == '\n' {
                    '\n'
                } else {
                    ch
                }),
        decreases cs.len() - i,
    {
        out.push(
            if cs[i] == '\n' {
                '\n'
            } else {
                ch
            },
        );
        i += 1;
    }
    assert(out@ =~= overwritten(s@, ch));
    out
}

impl Session {
    pub fn enter_visual(&mut self, d: Option<&Doc>, mode: Mode)
        ensures
            final(self)@ == old(self)@.enter_visual(d, mode),
    {
        let head: usize = primary_head(d);
        if self.vim.mode == mode {
            self.set_mode(Mode::Normal);
            self.ask(Effect::Caret(head));
        } else {
            self.set_mode(mode);
            self.ask(Effect::Select { anchor: head, head });
        }
    }

    pub fn swap_ends(&mut self, d: Option<&Doc>)
        ensures
            final(self)@ == old(self)@.swap_ends(d),
    {
        match d {
            None => {},
            Some(d) => {
                self.ask(Effect::Select { anchor: d.head, head: d.anchor });
            },
        }
    }

    pub fn join_selected(&mut self, d: Option<&Doc>)
        requires
            opt_wf(d),
        ensures
            final(self)@ == old(self)@.join_selected(d),
    {
        let (start, count) = match d {
            None => (0usize, 1usize),
            Some(d) => {
                let lo: usize = min_of(d.anchor, d.head);
                let hi: usize = max_of(d.anchor, d.head);
                let first: usize = d.char_to_line(lo);
                let last: usize = d.char_to_line(hi);
                proof {
                    d.lemma_line_of(lo as int);
                    d.lemma_line_of(hi as int);
                    lemma_lines_ascend(d, lo as int, hi as int);
                    assert(last < d.lines.len());
                }
                (d.line_to_char(first), (last - first) + 1)
            },
        };
        self.set_mode(Mode::Normal);
        self.vim.count = Some(max_of(count, 2));
        self.ask(Effect::Caret(start));
        self.join_lines();
    }

    pub fn visual_replace(&mut self, d: Option<&Doc>, ch: char)
        requires
            opt_wf(d),
        ensures
            final(self)@ == old(self)@.visual_replace(d, ch),
    {
        self.set_mode(Mode::Normal);
        match d {
            None => {},
            Some(d) => {
                let (start, end) = selection(d);
                if start < end {
                    let text: String = d.text_between(start, end);
                    let out: String = overwrite(text.as_str(), ch);
                    self.ask(replacing(d, start, end, out));
                    self.ask(Effect::Caret(start));
                }
            },
        }
        self.clear();
    }

    pub fn visual_operator(&mut self, d: Option<&Doc>, op: Operator)
        requires
            opt_wf(d),
        ensures
            final(self)@ == old(self)@.visual_operator(d, op),
    {
        let linewise: bool = self.vim.mode == Mode::VisualLine;
        self.set_mode(Mode::Normal);
        match d {
            None => {},
            Some(doc) => {
                let (start, end) = selection(doc);
                if linewise {
                    self.apply_operator_kind(
                        d,
                        op,
                        start,
                        max_of(minus_of(end, 1), start),
                        MotionKind::Linewise,
                    );
                } else {
                    self.apply_operator_range(d, op, start, end, false);
                }
                self.clear();
            },
        }
    }
}

/// A later position is on the same line or a later one.
pub proof fn lemma_lines_ascend(d: &Doc, p: int, q: int)
    requires
        d.wf(),
        0 <= p <= q,
    ensures
        d.line_of(p) <= d.line_of(q),
{
    d.lemma_line_of(p);
    d.lemma_line_of(q);
    let a = d.line_of(p);
    let b = d.line_of(q);
    if b < a {
        assert(d.lines@[b + 1].start <= d.lines@[a].start);
    }
}

/// Swapping the ends of a selection twice gives the selection back.
pub proof fn swapping_ends_twice(s: Step, d: &Doc, swapped: &Doc)
    requires
        s.swap_ends(Some(d)).out.last() == (EffectView::Select {
            anchor: swapped.anchor as int,
            head: swapped.head as int,
        }),
    ensures
        s.swap_ends(Some(swapped)).out.last() == (EffectView::Select {
            anchor: d.anchor as int,
            head: d.head as int,
        }),
{
}

} // verus!
