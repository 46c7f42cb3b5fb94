//! Motions: keys to targets, and what is asked of the editor's word and bracket rules.

use vstd::prelude::*;

use crate::doc::{
    greater, head_of, lesser, max_of, min_of, minus, minus_of, opt_wf, primary_head, sum_within,
    Doc,
};
use crate::effect::{Effect, EffectView};
use crate::key::KeyCode;
use crate::vim::session::{Session, Step};
use crate::vim::state::{FindPending, Mode, MotionKind, Vim};

verus! {

/// A motion that is made step by step.
#[derive(Debug, Clone, Copy, PartialEq, Eq, Structural)]
pub enum StepKind {
    WordStart { big: bool },
    WordStartBack { big: bool },
    WordEnd { big: bool },
    WordEndBack { big: bool },
    ParagraphForward,
    ParagraphBackward,
}

/// A text object.
#[derive(Debug, Clone, Copy, PartialEq, Eq, Structural)]
pub enum TextObject {
    Word { big: bool },
    Pair { open: char, close: char },
    Quote { quote: char },
    Paragraph,
}

/// What has to be known before a key can be handled.
#[derive(Debug, Clone, Copy, PartialEq, Eq, Structural)]
pub enum Query {
    Nothing,
    /// The first non-blank position of a line.
    FirstNonBlank(usize),
    /// Where a number of steps from the caret lead.
    Steps { step: StepKind, count: usize },
    /// The partner of the bracket at the caret, or of the next one on the line.
    Percent,
    /// The last non-blank position of the caret's line.
    LastNonBlank,
    /// Where the character search from the caret leads.
    FindChar { kind: FindPending, ch: char },
    /// The range of a text object at the caret.
    Object { object: TextObject, around: bool },
    /// The range of the word at the caret.
    WordAt,
    /// What the clipboard holds.
    Clipboard,
}

/// The answer to a query: a position, a range or a text.
#[derive(Debug)]
pub struct Answer {
    pub pos: Option<usize>,
    pub range: Option<(usize, usize)>,
    pub text: String,
}

/// Where a motion leads: to a position, or where the answer to a query says.
#[derive(Debug, Clone, Copy, PartialEq, Eq, Structural)]
pub enum Target {
    At(usize),
    Ask(Query),
}

pub open spec fn steps(step: StepKind, count: int) -> Target {
    Target::Ask(Query::Steps { step, count: count as usize })
}

pub open spec fn first_non_blank(line: int) -> Target {
    Target::Ask(Query::FirstNonBlank(line as usize))
}

pub open spec fn at(p: int) -> Target {
    Target::At(p as usize)
}

/// Where a motion key leads from the caret, and what it takes; `typed` is the typed count and
/// `page` the number of lines in view.
pub open spec fn planned(d: &Doc, code: KeyCode, typed: Option<int>, page: int) -> Option<
    (Target, MotionKind),
> {
    let count = match typed {
        Some(n) => n,
        None => 1,
    };
    let pos = d.head as int;
    let line = d.line_of(pos);
    let view = d.scroll_line as int;
    let height = greater(page, 1);
    match code {
        KeyCode::Left | KeyCode::Backspace => Some(
            (at(greater(minus(pos, count), d.start(line))), MotionKind::Exclusive),
        ),
        KeyCode::Right => Some((at(lesser(pos + count, d.end(line))), MotionKind::Exclusive)),
        KeyCode::Down => Some(
            (at(d.start(lesser(line + count, d.last()))), MotionKind::Linewise),
        ),
        KeyCode::Up => Some((at(d.start(minus(line, count))), MotionKind::Linewise)),
        KeyCode::Home => Some((at(d.start(line)), MotionKind::Exclusive)),
        KeyCode::End => Some((at(line_last(d, line, count)), MotionKind::Inclusive)),
        KeyCode::Char(c) => if c == 'h' {
            Some((at(greater(minus(pos, count), d.start(line))), MotionKind::Exclusive))
        } else if c == 'l' || c == ' ' {
            Some((at(lesser(pos + count, d.end(line))), MotionKind::Exclusive))
        } else if c == 'j' {
            Some((at(d.start(lesser(line + count, d.last()))), MotionKind::Linewise))
        } else if c == 'k' {
            Some((at(d.start(minus(line, count))), MotionKind::Linewise))
        } else if c == 'w' {
            Some((steps(StepKind::WordStart { big: false }, count), MotionKind::Exclusive))
        } else if c == 'W' {
            Some((steps(StepKind::WordStart { big: true }, count), MotionKind::Exclusive))
        } else if c == 'b' {
            Some((steps(StepKind::WordStartBack { big: false }, count), MotionKind::Exclusive))
        } else if c == 'B' {
            Some((steps(StepKind::WordStartBack { big: true }, count), MotionKind::Exclusive))
        } else if c == 'e' {
            Some((steps(StepKind::WordEnd { big: false }, count), MotionKind::Inclusive))
        } else if c == 'E' {
            Some((steps(StepKind::WordEnd { big: true }, count), MotionKind::Inclusive))
        } else if c == '0' {
            Some((at(d.start(line)), MotionKind::Exclusive))
        } else if c == '^' {
            Some((first_non_blank(line), MotionKind::Exclusive))
        } else if c == '$' {
            Some((at(line_last(d, line, count)), MotionKind::Inclusive))
        } else if c == '|' {
            Some(
                (
                    at(d.start(line) + lesser(minus(count, 1), d.end(line) - d.start(line))),
                    MotionKind::Exclusive,
                ),
            )
        } else if c == '{' {
            Some((steps(StepKind::ParagraphBackward, count), MotionKind::Exclusive))
        } else if c == '}' {
            Some((steps(StepKind::ParagraphForward, count), MotionKind::Exclusive))
        } else if c == '%' {
            Some((Target::Ask(Query::Percent), MotionKind::Inclusive))
        } else if c == 'G' {
            Some(
                (
                    first_non_blank(
                        match typed {
                            Some(n) => lesser(minus(n, 1), d.last()),
                            None => d.last(),
                        },
                    ),
                    MotionKind::Linewise,
                ),
            )
        } else if c == 'H' {
            Some((first_non_blank(lesser(view + minus(count, 1), d.last())), MotionKind::Linewise))
        } else if c == 'M' {
            Some((first_non_blank(lesser(view + height / 2, d.last())), MotionKind::Linewise))
        } else if c == 'L' {
            Some(
                (
                    first_non_blank(
                        minus(lesser(view + (height - 1), d.last()), minus(count, 1)),
                    ),
                    MotionKind::Linewise,
                ),
            )
        } else {
            None
        },
        _ => None,
    }
}

/// The last character of the line `count - 1` lines below `line`, or its start where it is empty.
pub open spec fn line_last(d: &Doc, line: int, count: int) -> int {
    let l = lesser(line + minus(count, 1), d.last());
    greater(minus(d.end(l), 1), d.start(l))
}

/// Where a motion leads, given the answer to its query.
pub open spec fn motion_to(
    d: Option<&Doc>,
    code: KeyCode,
    typed: Option<int>,
    page: int,
    answer: Option<usize>,
) -> Option<(int, MotionKind)> {
    match d {
        None => None,
        Some(d) => match planned(d, code, typed, page) {
            None => None,
            Some((Target::At(p), kind)) => Some((p as int, kind)),
            Some((Target::Ask(q), kind)) => match answer {
                Some(p) => Some((p as int, kind)),
                None => None,
            },
        },
    }
}

/// The query of a motion.
pub open spec fn motion_query(d: Option<&Doc>, code: KeyCode, typed: Option<int>, page: int) -> Query {
    match d {
        None => Query::Nothing,
        Some(d) => match planned(d, code, typed, page) {
            Some((Target::Ask(q), kind)) => q,
            _ => Query::Nothing,
        },
    }
}

pub open spec fn opt_int(o: Option<usize>) -> Option<int> {
    match o {
        Some(n) => Some(n as int),
        None => None,
    }
}

fn last_of_line(d: &Doc, line: usize, count: usize) -> (r: usize)
    requires
        d.wf(),
        line < d.lines@.len(),
    ensures
        r == line_last(d, line as int, count as int),
{
    let l: usize = sum_within(line, minus_of(count, 1), d.lines.len() - 1);
    let s: usize = d.line_to_char(l);
    max_of(minus_of(d.line_end(l), 1), s)
}

/// Where a motion key leads from the caret, and what it takes.
pub fn plan_motion(d: &Doc, code: KeyCode, typed: Option<usize>, page: usize) -> (r: Option<
    (Target, MotionKind),
>)
    requires
        d.wf(),
    ensures
        r == planned(d, code, opt_int(typed), page as int),
{
    let count: usize = match typed {
        Some(n) => n,
        None => 1,
    };
    let pos: usize = d.head;
    let line: usize = d.char_to_line(pos);
    let line_start: usize = d.line_to_char(line);
    let content_end: usize = d.line_end(line);
    let last_line: usize = d.lines.len() - 1;
    let view: usize = d.scroll_line;
    let height: usize = max_of(page, 1);
    let left: Target = Target::At(max_of(minus_of(pos, count), line_start));
    let right: Target = Target::At(sum_within(pos, count, content_end));
    let down: Target = Target::At(d.line_to_char(sum_within(line, count, last_line)));
    let up: Target = Target::At(d.line_to_char(minus_of(line, count)));
    match code {
        KeyCode::Left | KeyCode::Backspace => Some((left, MotionKind::Exclusive)),
        KeyCode::Right => Some((right, MotionKind::Exclusive)),
        KeyCode::Down => Some((down, MotionKind::Linewise)),
        KeyCode::Up => Some((up, MotionKind::Linewise)),
        KeyCode::Home => Some((Target::At(line_start), MotionKind::Exclusive)),
        KeyCode::End => Some((Target::At(last_of_line(d, line, count)), MotionKind::Inclusive)),
        KeyCode::Char(c) => {
            if c == 'h' {
                Some((left, MotionKind::Exclusive))
            } else if c == 'l' || c == ' ' {
                Some((right, MotionKind::Exclusive))
            } else if c == 'j' {
                Some((down, MotionKind::Linewise))
            } else if c == 'k' {
                Some((up, MotionKind::Linewise))
            } else if c == 'w' || c == 'W' {
                let step: StepKind = StepKind::WordStart { big: c == 'W' };
                Some((Target::Ask(Query::Steps { step, count }), MotionKind::Exclusive))
            } else if c == 'b' || c == 'B' {
                let step: StepKind = StepKind::WordStartBack { big: c == 'B' };
                Some((Target::Ask(Query::Steps { step, count }), MotionKind::Exclusive))
            } else if c == 'e' || c == 'E' {
                let step: StepKind = StepKind::WordEnd { big: c == 'E' };
                Some((Target::Ask(Query::Steps { step, count }), MotionKind::Inclusive))
            } else if c == '0' {
                Some((Target::At(line_start), MotionKind::Exclusive))
            } else if c == '^' {
                Some((Target::Ask(Query::FirstNonBlank(line)), MotionKind::Exclusive))
            } else if c == '$' {
                Some((Target::At(last_of_line(d, line, count)), MotionKind::Inclusive))
            } else if c == '|' {
                let col: usize = min_of(minus_of(count, 1), content_end - line_start);
                Some((Target::At(line_start + col), MotionKind::Exclusive))
            } else if c == '{' {
                let step: StepKind = StepKind::ParagraphBackward;
                Some((Target::Ask(Query::Steps { step, count }), MotionKind::Exclusive))
            } else if c == '}' {
                let step: StepKind = StepKind::ParagraphForward;
                Some((Target::Ask(Query::Steps { step, count }), MotionKind::Exclusive))
            } else if c == '%' {
                Some((Target::Ask(Query::Percent), MotionKind::Inclusive))
            } else if c == 'G' {
                let l: usize = match typed {
                    Some(n) => min_of(minus_of(n, 1), last_line),
                    None => last_line,
                };
                Some((Target::Ask(Query::FirstNonBlank(l)), MotionKind::Linewise))
            } else if c == 'H' {
                let l: usize = sum_within(view, minus_of(count, 1), last_line);
                Some((Target::Ask(Query::FirstNonBlank(l)), MotionKind::Linewise))
            } else if c == 'M' {
                let l: usize = sum_within(view, height / 2, last_line);
                Some((Target::Ask(Query::FirstNonBlank(l)), MotionKind::Linewise))
            } else if c == 'L' {
                let bottom: usize = sum_within(view, height - 1, last_line);
                let l: usize = minus_of(bottom, minus_of(count, 1));
                Some((Target::Ask(Query::FirstNonBlank(l)), MotionKind::Linewise))
            } else {
                None
            }
        },
        _ => None,
    }
}

/// Resolve a motion key to a target and a kind, given the answer to its query.
pub fn motion(
    d: Option<&Doc>,
    code: KeyCode,
    typed: Option<usize>,
    page: usize,
    answer: &Answer,
) -> (r: Option<(usize, MotionKind)>)
    requires
        opt_wf(d),
    ensures
        match r {
            Some((p, kind)) => motion_to(d, code, opt_int(typed), page as int, answer.pos) == Some(
                (p as int, kind),
            ),
            None => motion_to(d, code, opt_int(typed), page as int, answer.pos) is None,
        },
{
    match d {
        None => None,
        Some(d) => match plan_motion(d, code, typed, page) {
            None => None,
            Some((Target::At(p), kind)) => Some((p, kind)),
            Some((Target::Ask(_), kind)) => match answer.pos {
                Some(p) => Some((p, kind)),
                None => None,
            },
        },
    }
}

/// The query of a motion key.
pub fn ask_motion(d: Option<&Doc>, code: KeyCode, typed: Option<usize>, page: usize) -> (r: Query)
    requires
        opt_wf(d),
    ensures
        r == motion_query(d, code, opt_int(typed), page as int),
{
    match d {
        None => Query::Nothing,
        Some(d) => match plan_motion(d, code, typed, page) {
            Some((Target::Ask(q), _)) => q,
            _ => Query::Nothing,
        },
    }
}

/// Positions that a step function leads through: each is a step from the one before, none is a
/// step to itself.
pub open spec fn is_path<F: Fn(usize) -> usize>(f: F, path: Seq<usize>) -> bool {
    forall|i: int|
        0 <= i < path.len() - 1 ==> #[trigger] path[i] != path[i + 1] && call_ensures(
            f,
            (path[i],),
            path[i + 1],
        )
}

/// Step `f` from `start`, `count` times, or fewer where it stalls.
pub fn nth<F: Fn(usize) -> usize>(start: usize, count: usize, f: F) -> (r: usize)
    requires
        forall|p: usize| call_requires(f, (p,)),
    ensures
        exists|path: Seq<usize>|
            {
                &&& path.len() >= 1
                &&& #[trigger] is_path(f, path)
                &&& path[0] == start
                &&& path.last() == r
                &&& path.len() <= count + 1
                &&& path.len() == count + 1 || call_ensures(f, (r,), r)
            },
{
    let mut p: usize = start;
    let mut n: usize = 0;
    let ghost mut path: Seq<usize> = seq![start];
    while n < count
        invariant
            forall|p: usize| call_requires(f, (p,)),
            n <= count,
            path.len() == n + 1,
            path[0] == start,
            path.last() == p,
            is_path(f, path),
        decreases count - n,
    {
        let next: usize = f(p);
        if next == p {
            return p;
        }
        proof {
            let longer = path.push(next);
            assert forall|i: int| 0 <= i < longer.len() - 1 implies #[trigger] longer[i] != longer[i
                + 1] && call_ensures(f, (longer[i],), longer[i + 1]) by {
                if i < path.len() - 1 {
                    assert(path[i] != path[i + 1]);
                }
            }
            path = longer;
        }
        p = next;
        n += 1;
    }
    p
}

/// A bracket of any of the three pairs.
pub open spec fn is_bracket(c: char) -> bool {
    c == '(' || c == ')' || c == '[' || c == ']' || c == '{' || c == '}'
}

/// The first bracket at or after `i`, before `end`.
pub open spec fn next_bracket(s: Seq<char>, i: int, end: int) -> Option<int>
    decreases end - i,
{
    if i < 0 || i >= end || i >= s.len() {
        None
    } else if is_bracket(s[i]) {
        Some(i)
    } else {
        next_bracket(s, i + 1, end)
    }
}

/// Where the next bracket on the caret's line stands, from the caret on.
pub open spec fn bracket_on_line(d: &Doc) -> Option<int> {
    next_bracket(d.chars@, d.head as int, d.end(d.line_of(d.head as int)))
}

/// `%`: the partner of the bracket at the caret, or of the next bracket on the line; `f` gives the
/// partner of the bracket at a position.
pub fn percent_target<F: Fn(usize) -> Option<usize>>(d: &Doc, f: F) -> (r: Option<usize>)
    requires
        d.wf(),
        forall|p: usize| call_requires(f, (p,)),
    ensures
        (r is Some && call_ensures(f, (d.head,), r)) || (call_ensures(f, (d.head,), None)
            && match bracket_on_line(d) {
            Some(i) => call_ensures(f, (i as usize,), r),
            None => r is None,
        }),
{
    let here: Option<usize> = f(d.head);
    if here.is_some() {
        return here;
    }
    let line: usize = d.char_to_line(d.head);
    let end: usize = d.line_end(line);
    let mut i: usize = d.head;
    while i < end
        invariant
            d.wf(),
            forall|p: usize| call_requires(f, (p,)),
            end <= d.chars@.len(),
            end == d.end(d.line_of(d.head as int)),
            call_ensures(f, (d.head,), None),
            bracket_on_line(d) == next_bracket(d.chars@, i as int, end as int),
        decreases end - i,
    {
        let c: char = d.chars[i];
        if c == '(' || c == ')' || c == '[' || c == ']' || c == '{' || c == '}' {
            return f(i);
        }
        i += 1;
    }
    None
}

impl Step {
    /// The caret of the selection moved, its anchor kept.
    pub open spec fn extend(self, d: Option<&Doc>, target: int) -> Step {
        self.ask(
            EffectView::Select {
                anchor: match d {
                    Some(d) => d.anchor as int,
                    None => 0,
                },
                head: target,
            },
        )
    }

    /// After a motion: the selection is extended, the pending operator is applied, or the caret is
    /// moved.
    pub open spec fn moved(self, d: Option<&Doc>, target: int, kind: MotionKind) -> Step {
        if self.vim.mode == Mode::Visual || self.vim.mode == Mode::VisualLine {
            self.extend(d, target).clear()
        } else {
            match self.vim.operator {
                Some(op) => self.operate_over(d, op, head_of(d), target, kind).clear(),
                None => self.ask(EffectView::Caret(target)).clear(),
            }
        }
    }

    /// After a character search; `found` is where it leads.
    pub open spec fn find(
        self,
        d: Option<&Doc>,
        fp: FindPending,
        ch: char,
        remember: bool,
        found: Option<usize>,
    ) -> Step {
        let s = if remember {
            Step { vim: Vim { last_find: Some((fp, ch)), ..self.vim }, out: self.out }
        } else {
            self
        };
        match d {
            None => s.clear(),
            Some(_) => match found {
                Some(t) => s.moved(d, t as int, find_kind(fp)),
                None => s.clear(),
            },
        }
    }

    /// The last character search again, the other way round where `reverse` says so.
    pub open spec fn find_again(self, d: Option<&Doc>, reverse: bool, found: Option<usize>) -> Step {
        match self.vim.last_find {
            None => self,
            Some((fp, ch)) => self.find(
                d,
                if reverse {
                    turned(fp)
                } else {
                    fp
                },
                ch,
                false,
                found,
            ),
        }
    }
}

/// What a character search takes.
pub open spec fn find_kind(fp: FindPending) -> MotionKind {
    match fp {
        FindPending::Find | FindPending::Till => MotionKind::Inclusive,
        FindPending::FindBack | FindPending::TillBack => MotionKind::Exclusive,
    }
}

/// The search in the other direction.
pub open spec fn turned(fp: FindPending) -> FindPending {
    match fp {
        FindPending::Find => FindPending::FindBack,
        FindPending::FindBack => FindPending::Find,
        FindPending::Till => FindPending::TillBack,
        FindPending::TillBack => FindPending::Till,
    }
}

/// Turning a search round twice gives the search.
pub proof fn turning_twice(fp: FindPending)
    ensures
        turned(turned(fp)) == fp,
        turned(fp) != fp,
{
}

pub fn turn(fp: FindPending) -> (r: FindPending)
    ensures
        r == turned(fp),
{
    match fp {
        FindPending::Find => FindPending::FindBack,
        FindPending::FindBack => FindPending::Find,
        FindPending::Till => FindPending::TillBack,
        FindPending::TillBack => FindPending::Till,
    }
}

impl Session {
    /// Move the caret of the selection, keeping its anchor.
    pub fn visual_set_head(&mut self, d: Option<&Doc>, target: usize)
        ensures
            final(self)@ == old(self)@.extend(d, target as int),
    {
        let anchor: usize = match d {
            Some(d) => d.anchor,
            None => 0,
        };
        self.ask(Effect::Select { anchor, head: target });
    }

    /// Act on where a motion led.
    pub fn motion_result(&mut self, d: Option<&Doc>, target: usize, kind: MotionKind)
        requires
            opt_wf(d),
        ensures
            final(self)@ == old(self)@.moved(d, target as int, kind),
    {
        if self.vim.mode == Mode::Visual || self.vim.mode == Mode::VisualLine {
            self.visual_set_head(d, target);
            self.clear();
        } else {
            match self.vim.operator {
                Some(op) => {
                    let from: usize = primary_head(d);
                    self.apply_operator_kind(d, op, from, target, kind);
                },
                None => {
                    self.ask(Effect::Caret(target));
                },
            }
            self.clear();
        }
    }

    /// Act on a character search.
    pub fn find_apply(
        &mut self,
        d: Option<&Doc>,
        fp: FindPending,
        ch: char,
        remember: bool,
        answer: &Answer,
    )
        requires
            opt_wf(d),
        ensures
            final(self)@ == old(self)@.find(d, fp, ch, remember, answer.pos),
    {
        if remember {
            self.vim.last_find = Some((fp, ch));
        }
        let kind: MotionKind = match fp {
            FindPending::Find | FindPending::Till => MotionKind::Inclusive,
            FindPending::FindBack | FindPending::TillBack => MotionKind::Exclusive,
        };
        let target: Option<usize> = match d {
            Some(_) => answer.pos,
            None => None,
        };
        match target {
            Some(t) => {
                self.motion_result(d, t, kind);
            },
            None => {
                self.clear();
            },
        }
    }

    /// Repeat the last character search.
    pub fn repeat_find(&mut self, d: Option<&Doc>, reverse: bool, answer: &Answer)
        requires
            opt_wf(d),
        ensures
            final(self)@ == old(self)@.find_again(d, reverse, answer.pos),
    {
        match self.vim.last_find {
            None => {},
            Some((fp, ch)) => {
                let way: FindPending = if reverse {
                    turn(fp)
                } else {
                    fp
                };
                self.find_apply(d, way, ch, false, answer);
            },
        }
    }
}

} // verus!
