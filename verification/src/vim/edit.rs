//! Insert mode and the single-key edits.

use vstd::prelude::*;

use crate::doc::{greater, lesser, max_of, min_of, minus, minus_of, opt_wf, sum_within, Doc};
use crate::effect::{effects_view, emit, no_effects, replaced, replacing, Effect, EffectView};
use crate::format::{char_count, push_repeated, repeated};
use crate::key::{Key, KeyCode};
use crate::text::{chars_of, string_of};
use crate::vim::motion::Answer;
use crate::vim::operators::Fold;
use crate::vim::session::{read_register, register_read, Session, Step};
use crate::vim::state::{Mode, Operator, Register, Vim};

verus! {

/// Where the indentation of a line ends, looking from `i` on, no further than `end`.
pub open spec fn indent_end(s: Seq<char>, i: int, end: int) -> int
    decreases end - i,
{
    if 0 <= i < end && i < s.len() && (s[i] == ' ' || s[i] == '\t') {
        indent_end(s, i + 1, end)
    } else {
        i
    }
}

/// The indentation of line `l`.
pub open spec fn indentation(d: &Doc, l: int) -> Seq<char> {
    d.chars@.subrange(d.start(l), indent_end(d.chars@, d.start(l), d.end(l)))
}

/// `n` copies of a text.
pub open spec fn copies(s: Seq<char>, n: int) -> Seq<char>
    decreases n,
{
    if n <= 0 {
        Seq::empty()
    } else {
        copies(s, n - 1) + s
    }
}

/// `n` copies of a text, each on a line of its own.
pub open spec fn line_copies(s: Seq<char>, n: int) -> Seq<char>
    decreases n,
{
    if n <= 1 {
        s
    } else {
        line_copies(s, n - 1).push('\n') + s
    }
}

/// Where the line breaks at the end of a text start.
pub open spec fn breaks_start(s: Seq<char>, n: int) -> int
    decreases n,
{
    if 0 < n <= s.len() && s[n - 1] == '\n' {
        breaks_start(s, n - 1)
    } else {
        n
    }
}

/// A text without the line breaks at its end.
pub open spec fn without_breaks(s: Seq<char>) -> Seq<char> {
    s.take(breaks_start(s, s.len() as int))
}

/// A number, cut down to what an `isize` holds.
pub open spec fn as_delta(n: int) -> int {
    lesser(n, isize::MAX as int)
}

/// Where the caret goes when insert mode is left: one to the left, on the same line.
pub open spec fn left_of_caret(d: &Doc) -> int {
    greater(minus(d.head as int, 1), d.start(d.line_of(d.head as int)))
}

/// The end of the caret's line.
pub open spec fn caret_line_end(d: &Doc) -> int {
    d.end(d.line_of(d.head as int))
}

/// The start of the caret's line.
pub open spec fn caret_line_start(d: &Doc) -> int {
    d.start(d.line_of(d.head as int))
}

/// The characters from the caret on, on its line, as many as `count`: where they end.
pub open spec fn caret_span_end(d: &Doc, count: int) -> int {
    lesser(d.head + count, caret_line_end(d))
}

impl Step {
    /// A key in insert mode, and whether it was taken. While recorded keys are pressed again, the
    /// characters are put in here; otherwise they go on to the editor.
    #[verifier::opaque]
    pub open spec fn insert_key(self, d: Option<&Doc>, key: Key) -> (Step, bool) {
        if key.code == KeyCode::Esc || (key.code == KeyCode::Char('[') && key.ctrl) {
            (self.leave_insert(d), true)
        } else if self.vim.replaying {
            match key.code {
                KeyCode::Char(c) => if !key.ctrl && !key.alt {
                    (self.type_text(d, seq![c]), true)
                } else {
                    (self, false)
                },
                KeyCode::Enter => (self.type_text(d, seq!['\n']), true),
                _ => (self, false),
            }
        } else {
            (self, false)
        }
    }

    /// One character put in at the caret.
    pub open spec fn type_text(self, d: Option<&Doc>, text: Seq<char>) -> Step {
        match d {
            None => self,
            Some(d) => self.ask(replaced(d, d.head as int, d.head as int, text)).ask(
                EffectView::Caret(d.head + 1),
            ),
        }
    }

    pub open spec fn leave_insert(self, d: Option<&Doc>) -> Step {
        let s = self.in_mode(Mode::Normal);
        match d {
            None => s,
            Some(d) => s.ask(EffectView::Caret(left_of_caret(d))),
        }
    }

    /// To insert mode, after a move to the right by `forward` characters on the line.
    pub open spec fn insert_at(self, d: Option<&Doc>, forward: Option<usize>) -> Step {
        (match (d, forward) {
            (Some(d), Some(n)) => self.ask(EffectView::Caret(caret_span_end(d, n as int))),
            _ => self,
        }).in_mode(Mode::Insert)
    }

    pub open spec fn insert_first_non_blank(self, d: Option<&Doc>) -> Step {
        (match d {
            Some(d) => self.ask(EffectView::CaretFirstNonBlank(d.line_of(d.head as int))),
            None => self,
        }).in_mode(Mode::Insert)
    }

    pub open spec fn insert_line_end(self, d: Option<&Doc>) -> Step {
        (match d {
            Some(d) => self.ask(EffectView::Caret(caret_line_end(d))),
            None => self,
        }).in_mode(Mode::Insert)
    }

    pub open spec fn insert_col1(self, d: Option<&Doc>) -> Step {
        (match d {
            Some(d) => self.ask(EffectView::Caret(caret_line_start(d))),
            None => self,
        }).in_mode(Mode::Insert)
    }

    /// A new line below or above, indented like the caret's.
    pub open spec fn open_line(self, d: Option<&Doc>, below: bool) -> Step {
        match d {
            None => self,
            Some(d) => {
                let indent = indentation(d, d.line_of(d.head as int));
                let n = indent.len() as int;
                (if below {
                    let p = caret_line_end(d);
                    self.ask(replaced(d, p, p, seq!['\n'] + indent)).ask(
                        EffectView::Caret(p + 1 + n),
                    )
                } else {
                    let p = caret_line_start(d);
                    self.ask(replaced(d, p, p, indent.push('\n'))).ask(EffectView::Caret(p + n))
                }).in_mode(Mode::Insert)
            },
        }
    }

    /// Characters from the caret on deleted into the register, and insert mode entered.
    pub open spec fn substitute(self, d: Option<&Doc>) -> Step {
        (match d {
            None => self,
            Some(doc) => {
                let s = doc.head as int;
                let e = caret_span_end(doc, self.vim.times());
                if s < e {
                    self.store(self.vim.register, doc.slice(s, e), false, false).delete(
                        d,
                        s,
                        e,
                        false,
                    )
                } else {
                    self
                }
            },
        }).in_mode(Mode::Insert).clear()
    }

    pub open spec fn change_lines(self, d: Option<&Doc>) -> Step {
        self.operate_lines(d, Operator::Change).clear()
    }

    /// An operator from the caret to the end of its line.
    pub open spec fn to_line_end(self, d: Option<&Doc>, op: Operator) -> Step {
        match d {
            None => self.operate(d, op, 0, 0, false).clear(),
            Some(doc) => self.operate(
                d,
                op,
                doc.head as int,
                caret_line_end(doc),
                false,
            ).clear(),
        }
    }

    /// Characters deleted after or before the caret, on its line.
    pub open spec fn delete_char(self, d: Option<&Doc>, forward: bool) -> Step {
        (match d {
            None => self,
            Some(doc) => {
                let s = if forward {
                    doc.head as int
                } else {
                    greater(minus(doc.head as int, self.vim.times()), caret_line_start(doc))
                };
                let e = if forward {
                    caret_span_end(doc, self.vim.times())
                } else {
                    doc.head as int
                };
                if s < e {
                    self.store(self.vim.register, doc.slice(s, e), false, false).delete(
                        d,
                        s,
                        e,
                        false,
                    ).ask(EffectView::ClampCaret)
                } else {
                    self
                }
            },
        }).clear()
    }

    /// The case of characters from the caret on toggled, and the caret moved past them.
    pub open spec fn toggle_case(self, d: Option<&Doc>) -> Step {
        (match d {
            None => self,
            Some(doc) => {
                let s = doc.head as int;
                let e = caret_span_end(doc, self.vim.times());
                if s < e {
                    self.fold(d, s, e, Fold::Toggle).ask(EffectView::CaretInLine(e))
                } else {
                    self
                }
            },
        }).clear()
    }

    /// Lines joined: one join fewer than the count, and at least one.
    pub open spec fn join_lines(self) -> Step {
        self.ask(EffectView::JoinLines(greater(self.vim.times(), 2) - 1)).clear()
    }

    /// Characters from the caret on replaced by as many of `ch`; a line break takes the place of
    /// all of them.
    pub open spec fn replace_char(self, d: Option<&Doc>, ch: char) -> Step {
        (match d {
            None => self,
            Some(doc) => {
                let s = doc.head as int;
                let e = caret_span_end(doc, self.vim.times());
                if s >= e {
                    self
                } else if ch == '\n' {
                    self.ask(replaced(doc, s, e, seq!['\n']))
                } else {
                    self.ask(replaced(doc, s, e, repeated(ch, e - s))).ask(
                        EffectView::Caret(greater(minus(e, 1), s)),
                    )
                }
            },
        }).clear()
    }

    /// A register put in, as often as the count says: line-by-line text on lines of its own, other
    /// text at the caret or after it.
    pub open spec fn paste(self, d: Option<&Doc>, before: bool, clip: Seq<char>) -> Step {
        let data = register_read(self.vim, self.vim.register, clip);
        (match d {
            None => self,
            Some(doc) => if data.text.len() == 0 {
                self
            } else if data.linewise {
                let block = line_copies(without_breaks(data.text), self.vim.times());
                let line = doc.line_of(doc.head as int);
                if before {
                    let p = doc.start(line);
                    self.ask(replaced(doc, p, p, block.push('\n'))).ask(
                        EffectView::CaretFirstNonBlank(line),
                    )
                } else {
                    let p = doc.end(line);
                    self.ask(replaced(doc, p, p, seq!['\n'] + block)).ask(
                        EffectView::CaretFirstNonBlank(line + 1),
                    )
                }
            } else {
                let text = copies(data.text, self.vim.times());
                let p = if before {
                    doc.head as int
                } else {
                    caret_span_end(doc, 1)
                };
                self.ask(replaced(doc, p, p, text)).ask(
                    EffectView::Caret(lesser(p + (text.len() - 1), usize::MAX as int)),
                )
            },
        }).clear()
    }

    /// A command run as often as the count says.
    pub open spec fn repeat_command(self, command: Seq<char>) -> Step {
        self.ask(EffectView::ExecuteTimes(command, self.vim.times())).clear()
    }

    /// The view moved by a page or half of one.
    pub open spec fn scroll(self, down: bool, half: bool, page: int) -> Step {
        let amount = as_delta(
            if half {
                greater(page / 2, 1)
            } else {
                greater(page, 1)
            },
        );
        self.ask(
            EffectView::MoveLines {
                delta: if down {
                    amount
                } else {
                    -amount
                },
                extend: false,
            },
        ).clear()
    }

    /// The last change pressed again, where there is one.
    pub open spec fn dot(self) -> Step {
        let n = match self.vim.typed() {
            Some(n) => n,
            None => 1,
        };
        let s = self.clear();
        if self.vim.last_change.len() == 0 {
            s
        } else {
            Step { vim: Vim { replaying: true, ..s.vim }, out: s.out.push(EffectView::Replay(n)) }
        }
    }
}

fn span_end(d: &Doc, count: usize) -> (r: usize)
    requires
        d.wf(),
    ensures
        r == caret_span_end(d, count as int),
        r <= d.chars@.len(),
{
    let line: usize = d.char_to_line(d.head);
    sum_within(d.head, count, d.line_end(line))
}

fn indent_of(d: &Doc, l: usize) -> (r: String)
    requires
        d.wf(),
        l < d.lines@.len(),
    ensures
        r@ == indentation(d, l as int),
        r@.len() <= d.end(l as int) - d.start(l as int),
{
    let s: usize = d.line_to_char(l);
    let e: usize = d.line_end(l);
    let mut i: usize = s;
    while i < e && (d.chars[i] == ' ' || d.chars[i] == '\t')
        invariant
            s <= i <= e <= d.chars@.len(),
            indent_end(d.chars@, s as int, e as int) == indent_end(d.chars@, i as int, e as int),
        decreases e - i,
    {
        i += 1;
    }
    string_of(d.chars.as_slice(), s, i)
}

/// `n` copies of a text.
pub fn repeat_text(s: &str, n: usize) -> (r: String)
    ensures
        r@ == copies(s@, n as int),
{
    let mut r: String = String::new();
    assert(r@ =~= Seq::empty());
    let mut i: usize = 0;
    while i < n
        invariant
            i <= n,
            r@ == copies(s@, i as int),
        decreases n - i,
    {
        r.push_str(s);
        i += 1;
    }
    r
}

/// `n` copies of a text, each on a line of its own.
fn repeat_lines(s: &str, n: usize) -> (r: String)
    ensures
        r@ == line_copies(s@, n as int),
{
    let mut r: String = s.to_owned();
    let mut i: usize = 1;
    while i < n
        invariant
            1 <= i,
            i <= n || i == 1,
            r@ == line_copies(s@, i as int),
        decreases n - i,
    {
        r.push('\n');
        r.push_str(s);
        i += 1;
    }
    r
}

/// A text without the line breaks at its end.
fn trim_breaks(s: &str) -> (r: String)
    ensures
        r@ == without_breaks(s@),
{
    let cs: Vec<char> = chars_of(s);
    let mut n: usize = cs.len();
    while n > 0 && cs[n - 1] == '\n'
        invariant
            n <= cs.len(),
            breaks_start(cs@, cs@.len() as int) == breaks_start(cs@, n as int),
        decreases n,
    {
        n -= 1;
    }
    let r: String = string_of(cs.as_slice(), 0, n);
    assert(r@ =~= cs@.take(n as int));
    r
}

/// A number, cut down to what an `isize` holds.
pub fn delta_of(n: usize) -> (r: isize)
    ensures
        r == as_delta(n as int),
        r >= 0,
{
    if n > isize::MAX as usize {
        isize::MAX
    } else {
        n as isize
    }
}

fn one_char(c: char) -> (r: String)
    ensures
        r@ == seq![c],
{
    let mut s: String = String::new();
    s.push(c);
    assert(s@ =~= seq![c]);
    s
}

impl Session {
    fn type_char(&mut self, d: Option<&Doc>, c: char)
        requires
            opt_wf(d),
        ensures
            final(self)@ == old(self)@.type_text(d, seq![c]),
    {
        match d {
            None => {},
            Some(d) => {
                self.ask(replacing(d, d.head, d.head, one_char(c)));
                self.ask(Effect::Caret(d.head + 1));
            },
        }
    }

    /// Handle a key in insert mode; whether it was taken.
    pub fn insert_key(&mut self, d: Option<&Doc>, key: Key) -> (r: bool)
        requires
            opt_wf(d),
        ensures
            (final(self)@, r) == old(self)@.insert_key(d, key),
    {
        proof {
            reveal(Step::insert_key);
        }
        if key.code == KeyCode::Esc || (key.code == KeyCode::Char('[') && key.ctrl) {
            self.leave_insert(d);
            return true;
        }
        if self.vim.replaying {
            match key.code {
                KeyCode::Char(c) => {
                    if !key.ctrl && !key.alt {
                        self.type_char(d, c);
                        return true;
                    }
                },
                KeyCode::Enter => {
                    self.type_char(d, '\n');
                    return true;
                },
                _ => {},
            }
        }
        false
    }

    fn leave_insert(&mut self, d: Option<&Doc>)
        requires
            opt_wf(d),
        ensures
            final(self)@ == old(self)@.leave_insert(d),
    {
        self.set_mode(Mode::Normal);
        match d {
            None => {},
            Some(d) => {
                let line: usize = d.char_to_line(d.head);
                self.ask(Effect::Caret(max_of(minus_of(d.head, 1), d.line_to_char(line))));
            },
        }
    }

    pub fn enter_insert_at(&mut self, d: Option<&Doc>, forward: Option<usize>)
        requires
            opt_wf(d),
        ensures
            final(self)@ == old(self)@.insert_at(d, forward),
    {
        match (d, forward) {
            (Some(d), Some(n)) => {
                self.ask(Effect::Caret(span_end(d, n)));
            },
            _ => {},
        }
        self.set_mode(Mode::Insert);
    }

    pub fn insert_first_non_blank(&mut self, d: Option<&Doc>)
        requires
            opt_wf(d),
        ensures
            final(self)@ == old(self)@.insert_first_non_blank(d),
    {
        match d {
            Some(d) => {
                self.ask(Effect::CaretFirstNonBlank(d.char_to_line(d.head)));
            },
            None => {},
        }
        self.set_mode(Mode::Insert);
    }

    pub fn insert_line_end(&mut self, d: Option<&Doc>)
        requires
            opt_wf(d),
        ensures
            final(self)@ == old(self)@.insert_line_end(d),
    {
        match d {
            Some(d) => {
                let line: usize = d.char_to_line(d.head);
                self.ask(Effect::Caret(d.line_end(line)));
            },
            None => {},
        }
        self.set_mode(Mode::Insert);
    }

    pub fn insert_col1(&mut self, d: Option<&Doc>)
        requires
            opt_wf(d),
        ensures
            final(self)@ == old(self)@.insert_col1(d),
    {
        match d {
            Some(d) => {
                let line: usize = d.char_to_line(d.head);
                self.ask(Effect::Caret(d.line_to_char(line)));
            },
            None => {},
        }
        self.set_mode(Mode::Insert);
    }

    pub fn open_line(&mut self, d: Option<&Doc>, below: bool)
        requires
            opt_wf(d),
        ensures
            final(self)@ == old(self)@.open_line(d, below),
    {
        match d {
            None => {},
            Some(d) => {
                let line: usize = d.char_to_line(d.head);
                let indent: String = indent_of(d, line);
                let n: usize = char_count(indent.as_str());
                if below {
                    let p: usize = d.line_end(line);
                    let mut text: String = one_char('\n');
                    text.push_str(indent.as_str());
                    self.ask(replacing(d, p, p, text));
                    self.ask(Effect::Caret(p + 1 + n));
                } else {
                    let p: usize = d.line_to_char(line);
                    let mut text: String = indent;
                    text.push('\n');
                    self.ask(replacing(d, p, p, text));
                    self.ask(Effect::Caret(p + n));
                }
                self.set_mode(Mode::Insert);
            },
        }
    }

    pub fn substitute_char(&mut self, d: Option<&Doc>)
        requires
            opt_wf(d),
        ensures
            final(self)@ == old(self)@.substitute(d),
    {
        match d {
            None => {},
            Some(doc) => {
                let count: usize = self.vim.effective_count();
                let reg: Option<char> = self.vim.register;
                let start: usize = doc.head;
                let end: usize = span_end(doc, count);
                if start < end {
                    let text: String = doc.text_between(start, end);
                    self.store_register(reg, text, false, false);
                    self.delete_range(d, start, end, false);
                }
            },
        }
        self.set_mode(Mode::Insert);
        self.clear();
    }

    pub fn change_current_lines(&mut self, d: Option<&Doc>)
        requires
            opt_wf(d),
        ensures
            final(self)@ == old(self)@.change_lines(d),
    {
        self.linewise_current(d, Operator::Change);
        self.clear();
    }

    /// Apply an operator from the caret to the end of its line.
    pub fn operate_to_line_end(&mut self, d: Option<&Doc>, op: Operator)
        requires
            opt_wf(d),
        ensures
            final(self)@ == old(self)@.to_line_end(d, op),
    {
        match d {
            None => {
                self.apply_operator_range(d, op, 0, 0, false);
            },
            Some(doc) => {
                let line: usize = doc.char_to_line(doc.head);
                let end: usize = doc.line_end(line);
                self.apply_operator_range(d, op, doc.head, end, false);
            },
        }
        self.clear();
    }

    pub fn delete_char(&mut self, d: Option<&Doc>, forward: bool)
        requires
            opt_wf(d),
        ensures
            final(self)@ == old(self)@.delete_char(d, forward),
    {
        match d {
            None => {},
            Some(doc) => {
                let count: usize = self.vim.effective_count();
                let reg: Option<char> = self.vim.register;
                let line: usize = doc.char_to_line(doc.head);
                let start: usize = if forward {
                    doc.head
                } else {
                    max_of(minus_of(doc.head, count), doc.line_to_char(line))
                };
                let end: usize = if forward {
                    span_end(doc, count)
                } else {
                    doc.head
                };
                if start < end {
                    let text: String = doc.text_between(start, end);
                    self.store_register(reg, text, false, false);
                    self.delete_range(d, start, end, false);
                    self.ask(Effect::ClampCaret);
                }
            },
        }
        self.clear();
    }

    pub fn toggle_case_cmd(&mut self, d: Option<&Doc>)
        requires
            opt_wf(d),
        ensures
            final(self)@ == old(self)@.toggle_case(d),
    {
        match d {
            None => {},
            Some(doc) => {
                let count: usize = self.vim.effective_count();
                let start: usize = doc.head;
                let end: usize = span_end(doc, count);
                if start < end {
                    self.transform_range(d, start, end, Fold::Toggle);
                    self.ask(Effect::CaretInLine(end));
                }
            },
        }
        self.clear();
    }

    pub fn join_lines(&mut self)
        ensures
            final(self)@ == old(self)@.join_lines(),
    {
        let count: usize = max_of(self.vim.effective_count(), 2);
        self.ask(Effect::JoinLines(count - 1));
        self.clear();
    }

    pub fn replace_char(&mut self, d: Option<&Doc>, ch: char)
        requires
            opt_wf(d),
        ensures
            final(self)@ == old(self)@.replace_char(d, ch),
    {
        match d {
            None => {},
            Some(doc) => {
                let count: usize = self.vim.effective_count();
                let start: usize = doc.head;
                let end: usize = span_end(doc, count);
                if start < end {
                    if ch == '\n' {
                        self.ask(replacing(doc, start, end, one_char('\n')));
                    } else {
                        let mut text: String = String::new();
                        push_repeated(&mut text, ch, end - start);
                        assert(text@ =~= repeated(ch, end - start));
                        self.ask(replacing(doc, start, end, text));
                        self.ask(Effect::Caret(max_of(end - 1, start)));
                    }
                }
            },
        }
        self.clear();
    }

    /// Put in a register.
    pub fn paste(&mut self, d: Option<&Doc>, before: bool, answer: &Answer)
        requires
            opt_wf(d),
        ensures
            final(self)@ == old(self)@.paste(d, before, answer.text@),
    {
        match d {
            None => {},
            Some(doc) => {
                let count: usize = self.vim.effective_count();
                let data: Register = read_register(
                    &self.vim,
                    self.vim.register,
                    answer.text.as_str(),
                );
                if char_count(data.text.as_str()) > 0 {
                    if data.linewise {
                        let body: String = trim_breaks(data.text.as_str());
                        let mut block: String = repeat_lines(body.as_str(), count);
                        let line: usize = doc.char_to_line(doc.head);
                        if before {
                            let p: usize = doc.line_to_char(line);
                            block.push('\n');
                            self.ask(replacing(doc, p, p, block));
                            self.ask(Effect::CaretFirstNonBlank(line));
                        } else {
                            let p: usize = doc.line_end(line);
                            let mut text: String = one_char('\n');
                            text.push_str(block.as_str());
                            self.ask(replacing(doc, p, p, text));
                            assert(line < doc.lines.len());
                            self.ask(Effect::CaretFirstNonBlank(line + 1));
                        }
                    } else {
                        let text: String = repeat_text(data.text.as_str(), count);
                        proof {
                            lemma_copies_len(data.text@, count as int);
                        }
                        let n: usize = char_count(text.as_str());
                        let p: usize = if before {
                            doc.head
                        } else {
                            span_end(doc, 1)
                        };
                        self.ask(replacing(doc, p, p, text));
                        self.ask(Effect::Caret(sum_within(p, n - 1, usize::MAX)));
                    }
                }
            },
        }
        self.clear();
    }

    /// Run a command as often as the count says.
    pub fn repeat_command(&mut self, command: &str)
        ensures
            final(self)@ == old(self)@.repeat_command(command@),
    {
        let count: usize = self.vim.effective_count();
        self.ask(Effect::ExecuteTimes(command.to_owned(), count));
        self.clear();
    }

    /// Move the view by a page or half of one.
    pub fn scroll(&mut self, down: bool, half: bool, page: usize)
        ensures
            final(self)@ == old(self)@.scroll(down, half, page as int),
    {
        let amount: isize = delta_of(
            if half {
                max_of(page / 2, 1)
            } else {
                max_of(page, 1)
            },
        );
        self.ask(
            Effect::MoveLines {
                delta: if down {
                    amount
                } else {
                    -amount
                },
                extend: false,
            },
        );
        self.clear();
    }

    /// Press the last change again.
    pub fn dot_repeat(&mut self)
        ensures
            final(self)@ == old(self)@.dot(),
    {
        let times: usize = match self.vim.count_opt() {
            Some(n) => n,
            None => 1,
        };
        self.clear();
        if self.vim.last_change.len() > 0 {
            self.vim.replaying = true;
            self.ask(Effect::Replay(times));
        }
    }
}

proof fn lemma_copies_len(s: Seq<char>, n: int)
    requires
        s.len() > 0,
        n >= 1,
    ensures
        copies(s, n).len() > 0,
    decreases n,
{
    if n > 1 {
        lemma_copies_len(s, n - 1);
    }
}

/// The line below the caret's, where there is one to join.
pub open spec fn line_to_join(d: &Doc) -> Option<int> {
    let line = d.line_of(d.head as int);
    if line + 1 >= d.count() {
        None
    } else {
        Some(line + 1)
    }
}

/// The requests of one join: the line break and the indentation after it, up to `next_first`, give
/// way to a space, or to nothing where the line is empty.
pub open spec fn join_requests(d: &Doc, next_first: int) -> Seq<EffectView> {
    let line = d.line_of(d.head as int);
    let e = d.end(line);
    seq![
        replaced(
            d,
            e,
            next_first,
            if d.start(line) == e {
                Seq::empty()
            } else {
                seq![' ']
            },
        ),
        EffectView::Caret(e),
    ]
}

/// The line below the caret's, where there is one to join.
pub fn join_target(d: &Doc) -> (r: Option<usize>)
    requires
        d.wf(),
    ensures
        match r {
            Some(l) => line_to_join(d) == Some(l as int),
            None => line_to_join(d) is None,
        },
{
    let line: usize = d.char_to_line(d.head);
    if line >= d.lines.len() - 1 {
        None
    } else {
        Some(line + 1)
    }
}

/// The requests of one join; `next_first` is the first non-blank of the line below.
pub fn join_step(d: &Doc, next_first: usize) -> (r: Vec<Effect>)
    requires
        d.wf(),
    ensures
        effects_view(r@) == join_requests(d, next_first as int),
{
    let mut out: Vec<Effect> = no_effects();
    let line: usize = d.char_to_line(d.head);
    let e: usize = d.line_end(line);
    let text: String = if d.line_to_char(line) == e {
        let t: String = String::new();
        assert(t@ =~= Seq::empty());
        t
    } else {
        one_char(' ')
    };
    emit(&mut out, replacing(d, e, next_first, text));
    emit(&mut out, Effect::Caret(e));
    assert(effects_view(out@) =~= join_requests(d, next_first as int));
    out
}

/// Where a caret past the last character of its line belongs.
pub open spec fn clamped_caret(d: &Doc) -> Option<int> {
    let line = d.line_of(d.head as int);
    let last = if d.end(line) == d.start(line) {
        d.start(line)
    } else {
        d.end(line) - 1
    };
    if d.head > last {
        Some(last)
    } else {
        None
    }
}

/// Where a caret past the last character of its line belongs.
pub fn clamp_caret(d: &Doc) -> (r: Option<usize>)
    requires
        d.wf(),
    ensures
        match r {
            Some(p) => clamped_caret(d) == Some(p as int),
            None => clamped_caret(d) is None,
        },
{
    let line: usize = d.char_to_line(d.head);
    let s: usize = d.line_to_char(line);
    let e: usize = d.line_end(line);
    let last: usize = if e == s {
        s
    } else {
        e - 1
    };
    if d.head > last {
        Some(last)
    } else {
        None
    }
}

/// Position `p`, no further than the content of its line.
pub fn caret_in_line(d: &Doc, p: usize) -> (r: usize)
    requires
        d.wf(),
    ensures
        r == lesser(p as int, d.end(d.line_of(p as int))),
{
    let line: usize = d.char_to_line(p);
    min_of(p, d.line_end(line))
}

/// A caret that was put back is on a character of its line, or at the start of an empty one.
pub proof fn clamped_caret_is_on_its_line(d: &Doc)
    requires
        d.wf(),
    ensures
        clamped_caret(d) matches Some(p) ==> caret_line_start(d) <= p && p < d.head && (p
            < caret_line_end(d) || caret_line_start(d) == caret_line_end(d)),
{
    d.lemma_line_of(d.head as int);
}

} // verus!
