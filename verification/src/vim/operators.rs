//! Operators: delete, change, yank, indent and case over a range.

use vstd::prelude::*;

use crate::doc::{greater, lesser, max_of, min_of, minus, minus_of, opt_wf, sum_within, Doc};
use crate::effect::{changes_view, replaced, replacing, Change, ChangeView, Effect, EffectView};
use crate::text::{is_upper, lower_of, lower_text, upper_of, upper_text};
use crate::vim::session::{Session, Step};
use crate::vim::state::{Mode, MotionKind, Operator};

verus! {

/// A change of case.
#[derive(Debug, Clone, Copy, PartialEq, Eq, Structural)]
pub enum Fold {
    Lower,
    Upper,
    Toggle,
}

/// A character in another case, which can be several.
pub open spec fn folded_char(c: char, f: Fold) -> Seq<char> {
    match f {
        Fold::Lower => lower_of(c),
        Fold::Upper => upper_of(c),
        Fold::Toggle => if is_upper(c) {
            lower_of(c)
        } else {
            upper_of(c)
        },
    }
}

/// The first `n` characters of a text in another case.
pub open spec fn folded(s: Seq<char>, f: Fold, n: int) -> Seq<char>
    decreases n,
{
    if n <= 0 {
        Seq::empty()
    } else {
        folded(s, f, n - 1) + folded_char(s[n - 1], f)
    }
}

/// Toggle the case of a character; it can become several.
pub fn toggle_case(c: char) -> (r: String)
    ensures
        r@ == folded_char(c, Fold::Toggle),
{
    if c.is_uppercase() {
        lower_text(c)
    } else {
        upper_text(c)
    }
}

fn fold_char(c: char, f: Fold) -> (r: String)
    ensures
        r@ == folded_char(c, f),
{
    match f {
        Fold::Lower => lower_text(c),
        Fold::Upper => upper_text(c),
        Fold::Toggle => toggle_case(c),
    }
}

/// The characters that a motion of a kind takes between two positions: from, to, and whether they
/// are whole lines.
pub open spec fn span(d: &Doc, from: int, to: int, kind: MotionKind) -> (int, int, bool) {
    let lo = lesser(from, to);
    let hi = greater(from, to);
    match kind {
        MotionKind::Exclusive => (lo, hi, false),
        MotionKind::Inclusive => (lo, lesser(hi + 1, d.size()), false),
        MotionKind::Linewise => (d.start(d.line_of(lo)), lines_end(d, d.line_of(hi)), true),
    }
}

/// The start of the line after `l`, or the end of the text.
pub open spec fn lines_end(d: &Doc, l: int) -> int {
    if l + 1 < d.count() {
        d.start(l + 1)
    } else {
        d.size()
    }
}

/// The indentation characters that one outdent removes, looking from place `n` on: a single tab, or
/// up to `width` spaces.
pub open spec fn indent_width(s: Seq<char>, width: int, n: int) -> int
    decreases width - n,
{
    if n == 0 && s.len() > 0 && s[0] == '\t' {
        1
    } else if 0 <= n < width && n < s.len() && s[n] == ' ' {
        indent_width(s, width, n + 1)
    } else {
        n
    }
}

/// The characters that one outdent removes at the start of a line.
pub fn leading_indent_width(chars: &[char], width: usize) -> (r: usize)
    ensures
        r == indent_width(chars@, width as int, 0),
        r <= chars.len(),
{
    if chars.len() > 0 && chars[0] == '\t' {
        return 1;
    }
    let mut n: usize = 0;
    while n < width && n < chars.len() && chars[n] == ' '
        invariant
            n <= chars.len(),
            n <= width,
            !(chars@.len() > 0 && chars@[0] == '\t'),
            indent_width(chars@, width as int, 0) == indent_width(
                chars@,
                width as int,
                n as int,
            ),
        decreases width - n,
    {
        n += 1;
    }
    n
}

/// The width of one level of indentation, for outdenting.
pub open spec fn tab_of(d: &Doc) -> int {
    greater(d.tab_width as int, 1)
}

/// What outdenting removes from line `l`.
pub open spec fn outdent_width(d: &Doc, l: int) -> int {
    indent_width(d.chars@.subrange(d.start(l), d.end(l)), tab_of(d), 0)
}

/// The changes that indent or outdent the lines from `l` to `last`, after `acc`.
pub open spec fn shifts(d: &Doc, l: int, last: int, indent: bool, acc: Seq<ChangeView>) -> Seq<
    ChangeView,
>
    decreases last + 1 - l,
{
    if l < 0 || l > last {
        acc
    } else if indent {
        shifts(
            d,
            l + 1,
            last,
            indent,
            acc.push(ChangeView { at: d.start(l), removed: Seq::empty(), inserted: "    "@ }),
        )
    } else if outdent_width(d, l) > 0 {
        shifts(
            d,
            l + 1,
            last,
            indent,
            acc.push(
                ChangeView {
                    at: d.start(l),
                    removed: d.slice(d.start(l), d.start(l) + outdent_width(d, l)),
                    inserted: Seq::empty(),
                },
            ),
        )
    } else {
        shifts(d, l + 1, last, indent, acc)
    }
}

impl Step {
    /// A range deleted. A line-by-line delete that reaches the end takes the line break before it
    /// too.
    pub open spec fn delete(self, d: Option<&Doc>, start: int, end: int, linewise: bool) -> Step {
        match d {
            None => self,
            Some(d) => if start >= end {
                self
            } else {
                let s = if linewise && end >= d.size() && 0 < start <= d.size() && d.chars@[start
                    - 1] == '\n' {
                    start - 1
                } else {
                    start
                };
                self.ask(replaced(d, s, end, Seq::empty())).ask(
                    if linewise {
                        EffectView::CaretFirstNonBlankAt(s)
                    } else {
                        EffectView::Caret(s)
                    },
                )
            },
        }
    }

    /// The content of the lines of a range deleted, the last line break kept.
    pub open spec fn empty_lines(self, d: Option<&Doc>, start: int, end: int) -> Step {
        match d {
            None => self,
            Some(d) => {
                let cs = d.start(d.line_of(start));
                let ce = d.end(d.line_of(greater(minus(end, 1), start)));
                self.ask(replaced(d, cs, ce, Seq::empty())).ask(EffectView::Caret(cs))
            },
        }
    }

    /// The lines of a range indented or outdented by one level.
    pub open spec fn shift(self, d: Option<&Doc>, start: int, end: int, indent: bool) -> Step {
        match d {
            None => self,
            Some(d) => {
                let first = d.line_of(start);
                let last = d.line_of(greater(minus(end, 1), start));
                let changes = shifts(d, first, last, indent, Seq::empty());
                let marked = self.ask(EffectView::MarkFirstNonBlank(first));
                (if changes.len() > 0 {
                    marked.ask(EffectView::Apply(changes))
                } else {
                    marked
                }).ask(EffectView::CaretFirstNonBlankAtMark)
            },
        }
    }

    /// The case of a range changed.
    pub open spec fn fold(self, d: Option<&Doc>, start: int, end: int, f: Fold) -> Step {
        match d {
            None => self,
            Some(d) => {
                let s = d.slice(start, end);
                let text = folded(s, f, s.len() as int);
                if text.len() == 0 {
                    self
                } else {
                    self.ask(replaced(d, start, d.within(end), text)).ask(EffectView::Caret(start))
                }
            },
        }
    }

    /// An operator applied to a range.
    pub open spec fn operate(
        self,
        d: Option<&Doc>,
        op: Operator,
        start: int,
        end: int,
        linewise: bool,
    ) -> Step {
        let text = match d {
            Some(d) => d.slice(start, end),
            None => Seq::empty(),
        };
        let reg = self.vim.register;
        match op {
            Operator::Yank => self.store(reg, text, linewise, true).ask(EffectView::Caret(start)),
            Operator::Delete => self.store(reg, text, linewise, false).delete(
                d,
                start,
                end,
                linewise,
            ),
            Operator::Change => (if linewise {
                self.store(reg, text, linewise, false).empty_lines(d, start, end)
            } else {
                self.store(reg, text, linewise, false).delete(d, start, end, false)
            }).in_mode(Mode::Insert),
            Operator::Indent => self.shift(d, start, end, true),
            Operator::Outdent => self.shift(d, start, end, false),
            Operator::Lower => self.fold(d, start, end, Fold::Lower),
            Operator::Upper => self.fold(d, start, end, Fold::Upper),
            Operator::ToggleCase => self.fold(d, start, end, Fold::Toggle),
        }
    }

    /// An operator applied over a motion.
    pub open spec fn operate_over(
        self,
        d: Option<&Doc>,
        op: Operator,
        from: int,
        to: int,
        kind: MotionKind,
    ) -> Step {
        match d {
            None => self,
            Some(doc) => {
                let s = span(doc, from, to, kind);
                self.operate(d, op, s.0, s.1, s.2)
            },
        }
    }

    /// An operator applied to the caret's line and those after it, as many as the count says.
    pub open spec fn operate_lines(self, d: Option<&Doc>, op: Operator) -> Step {
        match d {
            None => self,
            Some(doc) => {
                let line = doc.line_of(doc.head as int);
                let last = lesser(line + self.vim.times() - 1, doc.last());
                self.operate(d, op, doc.start(line), lines_end(doc, last), true)
            },
        }
    }
}

/// The start of the line after `l`, or the end of the text.
pub fn end_of_lines(d: &Doc, l: usize) -> (r: usize)
    requires
        d.wf(),
        l < d.lines@.len(),
    ensures
        r == lines_end(d, l as int),
        r <= d.chars@.len(),
{
    if l < d.lines.len() - 1 {
        d.line_to_char(l + 1)
    } else {
        d.chars.len()
    }
}

impl Session {
    /// Delete a range.
    pub fn delete_range(&mut self, d: Option<&Doc>, start: usize, end: usize, linewise: bool)
        ensures
            final(self)@ == old(self)@.delete(d, start as int, end as int, linewise),
    {
        match d {
            None => {},
            Some(d) => {
                if start >= end {
                    return;
                }
                let s: usize = if linewise && end >= d.chars.len() && start > 0 && start
                    <= d.chars.len() && d.chars[start - 1] == '\n' {
                    start - 1
                } else {
                    start
                };
                let nothing: String = String::new();
                assert(nothing@ =~= Seq::empty());
                self.ask(replacing(d, s, end, nothing));
                if linewise {
                    self.ask(Effect::CaretFirstNonBlankAt(s));
                } else {
                    self.ask(Effect::Caret(s));
                }
            },
        }
    }

    fn change_lines_content(&mut self, d: Option<&Doc>, start: usize, end: usize)
        requires
            opt_wf(d),
        ensures
            final(self)@ == old(self)@.empty_lines(d, start as int, end as int),
    {
        match d {
            None => {},
            Some(d) => {
                let first: usize = d.char_to_line(start);
                let last: usize = d.char_to_line(max_of(minus_of(end, 1), start));
                let cs: usize = d.line_to_char(first);
                let ce: usize = d.line_end(last);
                let nothing: String = String::new();
                assert(nothing@ =~= Seq::empty());
                self.ask(replacing(d, cs, ce, nothing));
                self.ask(Effect::Caret(cs));
            },
        }
    }

    fn indent_range(&mut self, d: Option<&Doc>, start: usize, end: usize, indent: bool)
        requires
            opt_wf(d),
        ensures
            final(self)@ == old(self)@.shift(d, start as int, end as int, indent),
    {
        match d {
            None => {},
            Some(d) => {
                let first: usize = d.char_to_line(start);
                let last: usize = d.char_to_line(max_of(minus_of(end, 1), start));
                let changes: Vec<Change> = indent_changes(d, first, last, indent);
                self.ask(Effect::MarkFirstNonBlank(first));
                assert(changes_view(changes@).len() == changes@.len());
                if changes.len() > 0 {
                    self.ask(Effect::Apply(changes));
                }
                self.ask(Effect::CaretFirstNonBlankAtMark);
            },
        }
    }

    /// Change the case of a range.
    pub fn transform_range(&mut self, d: Option<&Doc>, start: usize, end: usize, f: Fold)
        ensures
            final(self)@ == old(self)@.fold(d, start as int, end as int, f),
    {
        match d {
            None => {},
            Some(d) => {
                let s: String = d.text_between(start, end);
                let text: String = fold_text(s.as_str(), f);
                if text.as_str().unicode_len() == 0 {
                    return;
                }
                self.ask(replacing(d, start, d.clamp(end), text));
                self.ask(Effect::Caret(start));
            },
        }
    }

    /// Apply an operator to a range.
    pub fn apply_operator_range(
        &mut self,
        d: Option<&Doc>,
        op: Operator,
        start: usize,
        end: usize,
        linewise: bool,
    )
        requires
            opt_wf(d),
        ensures
            final(self)@ == old(self)@.operate(d, op, start as int, end as int, linewise),
    {
        let reg: Option<char> = self.vim.register;
        let text: String = match d {
            Some(d) => d.text_between(start, end),
            None => {
                let t: String = String::new();
                assert(t@ =~= Seq::empty());
                t
            },
        };
        match op {
            Operator::Yank => {
                self.store_register(reg, text, linewise, true);
                self.ask(Effect::Caret(start));
            },
            Operator::Delete => {
                self.store_register(reg, text, linewise, false);
                self.delete_range(d, start, end, linewise);
            },
            Operator::Change => {
                self.store_register(reg, text, linewise, false);
                if linewise {
                    self.change_lines_content(d, start, end);
                } else {
                    self.delete_range(d, start, end, false);
                }
                self.set_mode(Mode::Insert);
            },
            Operator::Indent => {
                self.indent_range(d, start, end, true);
            },
            Operator::Outdent => {
                self.indent_range(d, start, end, false);
            },
            Operator::Lower => {
                self.transform_range(d, start, end, Fold::Lower);
            },
            Operator::Upper => {
                self.transform_range(d, start, end, Fold::Upper);
            },
            Operator::ToggleCase => {
                self.transform_range(d, start, end, Fold::Toggle);
            },
        }
    }

    /// Apply an operator over a motion.
    pub fn apply_operator_kind(
        &mut self,
        d: Option<&Doc>,
        op: Operator,
        from: usize,
        to: usize,
        kind: MotionKind,
    )
        requires
            opt_wf(d),
        ensures
            final(self)@ == old(self)@.operate_over(d, op, from as int, to as int, kind),
    {
        match d {
            None => {},
            Some(doc) => {
                let lo: usize = min_of(from, to);
                let hi: usize = max_of(from, to);
                match kind {
                    MotionKind::Exclusive => {
                        self.apply_operator_range(d, op, lo, hi, false);
                    },
                    MotionKind::Inclusive => {
                        let end: usize = sum_within(hi, 1, doc.chars.len());
                        self.apply_operator_range(d, op, lo, end, false);
                    },
                    MotionKind::Linewise => {
                        let first: usize = doc.char_to_line(lo);
                        let last: usize = doc.char_to_line(hi);
                        let s: usize = doc.line_to_char(first);
                        let e: usize = end_of_lines(doc, last);
                        self.apply_operator_range(d, op, s, e, true);
                    },
                }
            },
        }
    }

    /// Apply an operator to the caret's line and those after it.
    pub fn linewise_current(&mut self, d: Option<&Doc>, op: Operator)
        requires
            opt_wf(d),
        ensures
            final(self)@ == old(self)@.operate_lines(d, op),
    {
        match d {
            None => {},
            Some(doc) => {
                let count: usize = self.vim.effective_count();
                let line: usize = doc.char_to_line(doc.head);
                let last: usize = sum_within(line, count - 1, doc.lines.len() - 1);
                let s: usize = doc.line_to_char(line);
                let e: usize = end_of_lines(doc, last);
                self.apply_operator_range(d, op, s, e, true);
            },
        }
    }
}

fn fold_text(s: &str, f: Fold) -> (r: String)
    ensures
        r@ == folded(s@, f, s@.len() as int),
{
    let cs: Vec<char> = crate::text::chars_of(s);
    let mut out: String = String::new();
    assert(out@ =~= Seq::empty());
    let mut i: usize = 0;
    while i < cs.len()
        invariant
            i <= cs.len(),
            cs@ == s@,
            out@ == folded(s@, f, i as int),
        decreases cs.len() - i,
    {
        let t: String = fold_char(cs[i], f);
        out.push_str(t.as_str());
        i += 1;
    }
    out
}

/// The changes that indent or outdent the lines from `first` to `last`.
pub fn indent_changes(d: &Doc, first: usize, last: usize, indent: bool) -> (r: Vec<Change>)
    requires
        d.wf(),
        last < d.lines@.len(),
    ensures
        changes_view(r@) == shifts(d, first as int, last as int, indent, Seq::empty()),
{
    let width: usize = max_of(d.tab_width, 1);
    let mut out: Vec<Change> = Vec::new();
    assert(changes_view(out@) =~= Seq::empty());
    let mut l: usize = first;
    while l <= last
        invariant
            d.wf(),
            last < d.lines.len(),
            width == tab_of(d),
            shifts(d, first as int, last as int, indent, Seq::empty()) == shifts(
                d,
                l as int,
                last as int,
                indent,
                changes_view(out@),
            ),
        decreases last + 1 - l,
    {
        let s: usize = d.line_to_char(l);
        let ghost before = out@;
        if indent {
            let c: Change = Change { at: s, removed: String::new(), inserted: "    ".to_owned() };
            assert(c@.removed =~= Seq::empty());
            out.push(c);
            assert(changes_view(out@) =~= changes_view(before).push(c@));
        } else {
            let e: usize = d.line_end(l);
            let n: usize = leading_indent_width(
                vstd::slice::slice_subrange(d.chars.as_slice(), s, e),
                width,
            );
            if n > 0 {
                let c: Change = Change {
                    at: s,
                    removed: d.text_between(s, s + n),
                    inserted: String::new(),
                };
                assert(c@.inserted =~= Seq::empty());
                out.push(c);
                assert(changes_view(out@) =~= changes_view(before).push(c@));
            }
        }
        l += 1;
    }
    out
}

} // verus!
