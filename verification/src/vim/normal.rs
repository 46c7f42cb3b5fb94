//! Key dispatch: normal mode, pending operators, the `g` and `z` prefixes, and visual mode.

use vstd::prelude::*;

use crate::doc::{
    greater, head_of, lesser, max_of, min_of, minus, minus_of, opt_wf, primary_head, Doc,
};
use crate::effect::{Effect, EffectView};
use crate::key::{Key, KeyCode};
use crate::vim::edit::{as_delta, delta_of};
use crate::vim::motion::{motion, motion_to, Answer, TextObject};
use crate::vim::session::{Session, Step};
use crate::vim::state::{FindPending, Mode, MotionKind, Operator, Prefix, Vim};

verus! {

/// The key that doubles an operator into one on whole lines (`dd`, `yy`, `>>`).
pub open spec fn doubled(op: Operator) -> char {
    match op {
        Operator::Delete => 'd',
        Operator::Change => 'c',
        Operator::Yank => 'y',
        Operator::Indent => '>',
        Operator::Outdent => '<',
        Operator::Lower => 'u',
        Operator::Upper => 'U',
        Operator::ToggleCase => '~',
    }
}

pub fn double_key(op: Operator) -> (r: char)
    ensures
        r == doubled(op),
{
    match op {
        Operator::Delete => 'd',
        Operator::Change => 'c',
        Operator::Yank => 'y',
        Operator::Indent => '>',
        Operator::Outdent => '<',
        Operator::Lower => 'u',
        Operator::Upper => 'U',
        Operator::ToggleCase => '~',
    }
}

/// The text object that a key after `i` or `a` names.
pub open spec fn object_named(code: KeyCode) -> Option<TextObject> {
    match code {
        KeyCode::Char(c) => if c == 'w' {
            Some(TextObject::Word { big: false })
        } else if c == 'W' {
            Some(TextObject::Word { big: true })
        } else if c == '(' || c == ')' || c == 'b' {
            Some(TextObject::Pair { open: '(', close: ')' })
        } else if c == '{' || c == '}' || c == 'B' {
            Some(TextObject::Pair { open: '{', close: '}' })
        } else if c == '[' || c == ']' {
            Some(TextObject::Pair { open: '[', close: ']' })
        } else if c == '<' || c == '>' {
            Some(TextObject::Pair { open: '<', close: '>' })
        } else if c == '"' || c == '\'' || c == '`' {
            Some(TextObject::Quote { quote: c })
        } else if c == 'p' {
            Some(TextObject::Paragraph)
        } else {
            None
        },
        _ => None,
    }
}

/// Map the key after `i` or `a` to a text object.
pub fn object_from_key(code: KeyCode) -> (r: Option<TextObject>)
    ensures
        r == object_named(code),
{
    match code {
        KeyCode::Char(c) => {
            if c == 'w' || c == 'W' {
                Some(TextObject::Word { big: c == 'W' })
            } else if c == '(' || c == ')' || c == 'b' {
                Some(TextObject::Pair { open: '(', close: ')' })
            } else if c == '{' || c == '}' || c == 'B' {
                Some(TextObject::Pair { open: '{', close: '}' })
            } else if c == '[' || c == ']' {
                Some(TextObject::Pair { open: '[', close: ']' })
            } else if c == '<' || c == '>' {
                Some(TextObject::Pair { open: '<', close: '>' })
            } else if c == '"' || c == '\'' || c == '`' {
                Some(TextObject::Quote { quote: c })
            } else if c == 'p' {
                Some(TextObject::Paragraph)
            } else {
                None
            }
        },
        _ => None,
    }
}

/// The operator that a key starts in normal mode.
pub open spec fn operator_of(c: char) -> Option<Operator> {
    if c == 'd' {
        Some(Operator::Delete)
    } else if c == 'c' {
        Some(Operator::Change)
    } else if c == 'y' {
        Some(Operator::Yank)
    } else if c == '>' {
        Some(Operator::Indent)
    } else if c == '<' {
        Some(Operator::Outdent)
    } else {
        None
    }
}

/// The operator that a key applies to the selection.
pub open spec fn selection_operator(c: char) -> Option<Operator> {
    if c == 'd' || c == 'x' {
        Some(Operator::Delete)
    } else if c == 'c' || c == 's' {
        Some(Operator::Change)
    } else if c == 'y' {
        Some(Operator::Yank)
    } else if c == '>' {
        Some(Operator::Indent)
    } else if c == '<' {
        Some(Operator::Outdent)
    } else if c == 'u' {
        Some(Operator::Lower)
    } else if c == 'U' {
        Some(Operator::Upper)
    } else if c == '~' {
        Some(Operator::ToggleCase)
    } else {
        None
    }
}

/// The character search that a key starts.
pub open spec fn find_of(c: char) -> Option<FindPending> {
    if c == 'f' {
        Some(FindPending::Find)
    } else if c == 'F' {
        Some(FindPending::FindBack)
    } else if c == 't' {
        Some(FindPending::Till)
    } else if c == 'T' {
        Some(FindPending::TillBack)
    } else {
        None
    }
}

fn operator_key(c: char) -> (r: Option<Operator>)
    ensures
        r == operator_of(c),
{
    if c == 'd' {
        Some(Operator::Delete)
    } else if c == 'c' {
        Some(Operator::Change)
    } else if c == 'y' {
        Some(Operator::Yank)
    } else if c == '>' {
        Some(Operator::Indent)
    } else if c == '<' {
        Some(Operator::Outdent)
    } else {
        None
    }
}

fn selection_operator_key(c: char) -> (r: Option<Operator>)
    ensures
        r == selection_operator(c),
{
    if c == 'd' || c == 'x' {
        Some(Operator::Delete)
    } else if c == 'c' || c == 's' {
        Some(Operator::Change)
    } else if c == 'y' {
        Some(Operator::Yank)
    } else if c == '>' {
        Some(Operator::Indent)
    } else if c == '<' {
        Some(Operator::Outdent)
    } else if c == 'u' {
        Some(Operator::Lower)
    } else if c == 'U' {
        Some(Operator::Upper)
    } else if c == '~' {
        Some(Operator::ToggleCase)
    } else {
        None
    }
}

fn find_key(c: char) -> (r: Option<FindPending>)
    ensures
        r == find_of(c),
{
    if c == 'f' {
        Some(FindPending::Find)
    } else if c == 'F' {
        Some(FindPending::FindBack)
    } else if c == 't' {
        Some(FindPending::Till)
    } else if c == 'T' {
        Some(FindPending::TillBack)
    } else {
        None
    }
}

/// The line that `gg` goes to.
pub open spec fn gg_line(d: &Doc, typed: Option<int>) -> int {
    match typed {
        Some(n) => lesser(minus(n, 1), d.last()),
        None => 0,
    }
}

impl Step {
    pub open spec fn with_prefix(self, p: Prefix) -> Step {
        Step { vim: Vim { prefix: Some(p), ..self.vim }, out: self.out }
    }

    pub open spec fn with_operator(self, op: Operator) -> Step {
        Step { vim: Vim { operator: Some(op), ..self.vim }, out: self.out }
    }

    pub open spec fn with_find(self, fp: FindPending) -> Step {
        Step { vim: Vim { find_pending: Some(fp), ..self.vim }, out: self.out }
    }

    pub open spec fn digit(self, c: char) -> Step {
        Step { vim: self.vim.digit(c as int - 0x30), out: self.out }
    }

    pub open spec fn without_count(self) -> Step {
        Step { vim: Vim { count: None, ..self.vim }, out: self.out }
    }

    /// The caret moved by lines, as many as the count says.
    pub open spec fn by_lines(self, down: bool, extend: bool) -> Step {
        let n = as_delta(self.vim.times());
        self.ask(
            EffectView::MoveLines {
                delta: if down {
                    n
                } else {
                    -n
                },
                extend,
            },
        ).without_count()
    }

    /// A motion key without an operator.
    pub open spec fn plain_motion(
        self,
        d: Option<&Doc>,
        code: KeyCode,
        page: int,
        answer: &Answer,
    ) -> Step {
        match motion_to(d, code, self.vim.typed(), page, answer.pos) {
            Some((t, kind)) => self.ask(EffectView::Caret(t)).without_count(),
            None => self.clear(),
        }
    }

    /// A key in normal mode with nothing pending but counts.
    #[verifier::opaque]
    pub open spec fn idle_key(self, d: Option<&Doc>, key: Key, page: int, answer: &Answer) -> Step {
        match key.code {
            KeyCode::Down | KeyCode::Enter => self.by_lines(true, false),
            KeyCode::Up => self.by_lines(false, false),
            KeyCode::Char(c) => if '1' <= c <= '9' || (c == '0' && self.vim.counting()) {
                self.digit(c)
            } else if c == '"' {
                self.with_prefix(Prefix::Register)
            } else if operator_of(c) is Some {
                self.with_operator(operator_of(c).unwrap())
            } else if c == 'g' {
                self.with_prefix(Prefix::G)
            } else if c == 'z' {
                self.with_prefix(Prefix::Z)
            } else if c == 'r' {
                self.with_prefix(Prefix::Replace)
            } else if find_of(c) is Some {
                self.with_find(find_of(c).unwrap())
            } else if c == ';' || c == ',' {
                self.find_again(d, c == ',', answer.pos)
            } else if c == 'i' {
                self.insert_at(d, None)
            } else if c == 'a' {
                self.insert_at(d, Some(1))
            } else if c == 'I' {
                self.insert_first_non_blank(d)
            } else if c == 'A' {
                self.insert_line_end(d)
            } else if c == 'o' || c == 'O' {
                self.open_line(d, c == 'o')
            } else if c == 's' {
                self.substitute(d)
            } else if c == 'S' {
                self.change_lines(d)
            } else if c == 'C' {
                self.to_line_end(d, Operator::Change)
            } else if c == 'D' {
                self.to_line_end(d, Operator::Delete)
            } else if c == 'x' || c == 'X' {
                self.delete_char(d, c == 'x')
            } else if c == '~' {
                self.toggle_case(d)
            } else if c == 'J' {
                self.join_lines()
            } else if c == 'p' || c == 'P' {
                self.paste(d, c == 'P', answer.text@)
            } else if c == 'u' {
                self.repeat_command("edit.undo"@)
            } else if c == '.' {
                self.dot()
            } else if c == 'v' {
                self.enter_visual(d, Mode::Visual)
            } else if c == 'V' {
                self.enter_visual(d, Mode::VisualLine)
            } else if c == ':' {
                self.open_command()
            } else if c == '/' || c == '?' {
                self.open_search(c == '/')
            } else if c == 'n' || c == 'N' {
                self.search_next(d, c == 'N')
            } else if c == '*' || c == '#' {
                self.search_word(d, c == '*', answer.range)
            } else if c == 'j' {
                self.by_lines(true, false)
            } else if c == 'k' {
                self.by_lines(false, false)
            } else {
                self.plain_motion(d, key.code, page, answer)
            },
            _ => self.plain_motion(d, key.code, page, answer),
        }
    }

    /// A motion key behind an operator.
    pub open spec fn operator_motion(
        self,
        d: Option<&Doc>,
        op: Operator,
        code: KeyCode,
        page: int,
        answer: &Answer,
    ) -> Step {
        match motion_to(d, code, self.vim.typed(), page, answer.pos) {
            Some((t, kind)) => self.operate_over(d, op, head_of(d), t, kind).clear(),
            None => self.clear(),
        }
    }

    /// A key behind the operator `op`.
    #[verifier::opaque]
    pub open spec fn operator_key(
        self,
        d: Option<&Doc>,
        op: Operator,
        key: Key,
        page: int,
        answer: &Answer,
    ) -> Step {
        match key.code {
            KeyCode::Char(c) => if '0' <= c <= '9' && (c != '0' || self.vim.counting()) {
                self.digit(c)
            } else if c == '"' {
                self.with_prefix(Prefix::Register)
            } else if c == doubled(op) {
                self.operate_lines(d, op).clear()
            } else if c == 'i' || c == 'a' {
                self.with_prefix(Prefix::Object { around: c == 'a' })
            } else if c == 'g' {
                self.with_prefix(Prefix::G)
            } else if find_of(c) is Some {
                self.with_find(find_of(c).unwrap())
            } else if c == ';' || c == ',' {
                self.find_again(d, c == ',', answer.pos)
            } else {
                self.operator_motion(d, op, key.code, page, answer)
            },
            _ => self.operator_motion(d, op, key.code, page, answer),
        }
    }

    /// A text object selected, or the operator applied to it; `range` is where it stands.
    pub open spec fn text_object(
        self,
        d: Option<&Doc>,
        obj: TextObject,
        range: Option<(usize, usize)>,
    ) -> Step {
        match (d, range) {
            (Some(_), Some((s, e))) => (if self.vim.mode == Mode::Visual || self.vim.mode
                == Mode::VisualLine {
                self.ask(
                    EffectView::Select {
                        anchor: s as int,
                        head: greater(minus(e as int, 1), s as int),
                    },
                )
            } else {
                match self.vim.operator {
                    Some(op) => self.operate(
                        d,
                        op,
                        s as int,
                        e as int,
                        obj == TextObject::Paragraph,
                    ),
                    None => self,
                }
            }).clear(),
            _ => self.clear(),
        }
    }

    /// A key behind `g`.
    pub open spec fn g_key(self, d: Option<&Doc>, key: Key, answer: &Answer) -> Step {
        let known = match (d, answer.pos) {
            (Some(_), Some(p)) => Some(p),
            _ => None,
        };
        match key.code {
            KeyCode::Char(c) => if c == 'g' {
                match known {
                    Some(t) => self.moved(d, t as int, MotionKind::Linewise),
                    None => self.clear(),
                }
            } else if c == 'e' || c == 'E' {
                self.moved(
                    d,
                    match known {
                        Some(t) => t as int,
                        None => 0,
                    },
                    MotionKind::Inclusive,
                )
            } else if c == '_' {
                match known {
                    Some(t) => self.moved(d, t as int, MotionKind::Inclusive),
                    None => self.clear(),
                }
            } else if self.vim.operator is Some {
                self.clear()
            } else if c == 'u' {
                self.with_operator(Operator::Lower)
            } else if c == 'U' {
                self.with_operator(Operator::Upper)
            } else if c == '~' {
                self.with_operator(Operator::ToggleCase)
            } else if c == 'I' || c == 'i' {
                self.insert_col1(d)
            } else {
                self.clear()
            },
            _ => self.clear(),
        }
    }

    /// A key behind `z`: the caret's line in the middle, at the top or at the bottom of the view.
    pub open spec fn z_key(self, d: Option<&Doc>, key: Key, page: int) -> Step {
        let height = greater(page, 1);
        match d {
            None => self,
            Some(d) => {
                let line = d.line_of(d.head as int);
                let scroll = match key.code {
                    KeyCode::Enter => Some(line),
                    KeyCode::Char(c) => if c == 'z' || c == '.' {
                        Some(minus(line, height / 2))
                    } else if c == 't' {
                        Some(line)
                    } else if c == 'b' {
                        Some(minus(line, height - 1))
                    } else {
                        None
                    },
                    _ => None,
                };
                match scroll {
                    Some(l) => self.ask(EffectView::SetScroll(lesser(l, d.last()))).clear(),
                    None => self,
                }
            },
        }
    }

    /// A key behind a prefix.
    #[verifier::opaque]
    pub open spec fn prefix_key(
        self,
        d: Option<&Doc>,
        prefix: Prefix,
        key: Key,
        page: int,
        answer: &Answer,
    ) -> Step {
        let s = Step { vim: Vim { prefix: None, ..self.vim }, out: self.out };
        match prefix {
            Prefix::Register => match key.code {
                KeyCode::Char(c) => Step {
                    vim: Vim { register: Some(c), ..s.vim },
                    out: self.out,
                },
                _ => s,
            },
            Prefix::Replace => {
                let ch = match key.code {
                    KeyCode::Char(c) => Some(c),
                    KeyCode::Enter => Some('\n'),
                    _ => None,
                };
                match ch {
                    Some(c) => if s.vim.mode == Mode::Visual || s.vim.mode == Mode::VisualLine {
                        s.visual_replace(d, c)
                    } else {
                        s.replace_char(d, c)
                    },
                    None => s.clear(),
                }
            },
            Prefix::Object { around } => match object_named(key.code) {
                Some(obj) => s.text_object(d, obj, answer.range),
                None => s.clear(),
            },
            Prefix::G => s.g_key(d, key, answer),
            Prefix::Z => s.z_key(d, key, page),
        }
    }

    /// A key in normal mode, and whether it was taken.
    #[verifier::opaque]
    pub open spec fn normal_key(self, d: Option<&Doc>, key: Key, page: int, answer: &Answer) -> (
        Step,
        bool,
    ) {
        if key.code == KeyCode::Esc {
            (self.clear(), true)
        } else if self.vim.find_pending is Some {
            let s = Step { vim: Vim { find_pending: None, ..self.vim }, out: self.out };
            match key.code {
                KeyCode::Char(c) => (
                    s.find(d, self.vim.find_pending.unwrap(), c, true, answer.pos),
                    true,
                ),
                _ => (s.clear(), true),
            }
        } else if self.vim.prefix is Some {
            (self.prefix_key(d, self.vim.prefix.unwrap(), key, page, answer), true)
        } else if key.ctrl {
            match key.code {
                KeyCode::Char(c) => if c == 'r' {
                    (self.repeat_command("edit.redo"@), true)
                } else if c == 'd' {
                    (self.scroll(true, true, page), true)
                } else if c == 'u' {
                    (self.scroll(false, true, page), true)
                } else if c == 'f' {
                    (self.scroll(true, false, page), true)
                } else if c == 'b' {
                    (self.scroll(false, false, page), true)
                } else {
                    (self, false)
                },
                _ => (self, false),
            }
        } else if key.alt {
            (self, false)
        } else {
            match self.vim.operator {
                Some(op) => (self.operator_key(d, op, key, page, answer), true),
                None => (self.idle_key(d, key, page, answer), true),
            }
        }
    }

    /// A motion key in a visual mode.
    pub open spec fn visual_motion(
        self,
        d: Option<&Doc>,
        code: KeyCode,
        page: int,
        answer: &Answer,
    ) -> Step {
        match motion_to(d, code, self.vim.typed(), page, answer.pos) {
            Some((t, kind)) => self.extend(d, t).without_count(),
            None => self.clear(),
        }
    }

    /// A key in a visual mode.
    #[verifier::opaque]
    pub open spec fn visual_key(self, d: Option<&Doc>, key: Key, page: int, answer: &Answer) -> Step {
        if key.code == KeyCode::Esc {
            self.in_mode(Mode::Normal).ask(EffectView::Caret(head_of(d))).clear()
        } else if self.vim.find_pending is Some {
            let s = Step { vim: Vim { find_pending: None, ..self.vim }, out: self.out };
            match key.code {
                KeyCode::Char(c) => s.find(d, self.vim.find_pending.unwrap(), c, true, answer.pos),
                _ => s,
            }
        } else if self.vim.prefix is Some {
            self.prefix_key(d, self.vim.prefix.unwrap(), key, page, answer)
        } else {
            match key.code {
                KeyCode::Down => self.by_lines(true, true),
                KeyCode::Up => self.by_lines(false, true),
                KeyCode::Char(c) => if '1' <= c <= '9' || (c == '0' && self.vim.counting()) {
                    self.digit(c)
                } else if c == '"' {
                    self.with_prefix(Prefix::Register)
                } else if c == 'v' {
                    self.enter_visual(d, Mode::Visual)
                } else if c == 'V' {
                    self.enter_visual(d, Mode::VisualLine)
                } else if c == 'o' {
                    self.swap_ends(d)
                } else if c == 'i' || c == 'a' {
                    self.with_prefix(Prefix::Object { around: c == 'a' })
                } else if c == 'g' {
                    self.with_prefix(Prefix::G)
                } else if find_of(c) is Some {
                    self.with_find(find_of(c).unwrap())
                } else if c == ';' || c == ',' {
                    self.find_again(d, c == ',', answer.pos)
                } else if selection_operator(c) is Some {
                    self.visual_operator(d, selection_operator(c).unwrap())
                } else if c == 'r' {
                    self.with_prefix(Prefix::Replace)
                } else if c == 'J' {
                    self.join_selected(d)
                } else if c == 'j' {
                    self.by_lines(true, true)
                } else if c == 'k' {
                    self.by_lines(false, true)
                } else {
                    self.visual_motion(d, key.code, page, answer)
                },
                _ => self.visual_motion(d, key.code, page, answer),
            }
        }
    }
}

impl Session {
    fn set_prefix(&mut self, p: Prefix)
        ensures
            final(self)@ == old(self)@.with_prefix(p),
    {
        self.vim.prefix = Some(p);
    }

    fn set_operator(&mut self, op: Operator)
        ensures
            final(self)@ == old(self)@.with_operator(op),
    {
        self.vim.operator = Some(op);
    }

    fn set_find(&mut self, fp: FindPending)
        ensures
            final(self)@ == old(self)@.with_find(fp),
    {
        self.vim.find_pending = Some(fp);
    }

    fn type_digit(&mut self, c: char)
        requires
            '0' <= c <= '9',
        ensures
            final(self)@ == old(self)@.digit(c),
    {
        self.vim.push_digit((c as u32 - 0x30) as usize);
    }

    fn move_by_lines(&mut self, down: bool, extend: bool)
        ensures
            final(self)@ == old(self)@.by_lines(down, extend),
    {
        let n: isize = delta_of(self.vim.effective_count());
        self.ask(
            Effect::MoveLines {
                delta: if down {
                    n
                } else {
                    -n
                },
                extend,
            },
        );
        self.vim.count = None;
    }

    fn plain_motion(&mut self, d: Option<&Doc>, code: KeyCode, page: usize, answer: &Answer)
        requires
            opt_wf(d),
        ensures
            final(self)@ == old(self)@.plain_motion(d, code, page as int, answer),
    {
        let typed: Option<usize> = self.vim.count_opt();
        match motion(d, code, typed, page, answer) {
            Some((t, _kind)) => {
                self.ask(Effect::Caret(t));
                self.vim.count = None;
            },
            None => {
                self.clear();
            },
        }
    }

    /// Handle a key in normal mode with nothing pending but counts.
    fn normal_idle(&mut self, d: Option<&Doc>, key: Key, page: usize, answer: &Answer)
        requires
            opt_wf(d),
        ensures
            final(self)@ == old(self)@.idle_key(d, key, page as int, answer),
    {
        proof {
            reveal(Step::idle_key);
        }
        match key.code {
            KeyCode::Down | KeyCode::Enter => {
                self.move_by_lines(true, false);
            },
            KeyCode::Up => {
                self.move_by_lines(false, false);
            },
            KeyCode::Char(c) => {
                if (c >= '1' && c <= '9') || (c == '0' && self.vim.count_active()) {
                    self.type_digit(c);
                } else if c == '"' {
                    self.set_prefix(Prefix::Register);
                } else if let Some(op) = operator_key(c) {
                    self.set_operator(op);
                } else if c == 'g' {
                    self.set_prefix(Prefix::G);
                } else if c == 'z' {
                    self.set_prefix(Prefix::Z);
                } else if c == 'r' {
                    self.set_prefix(Prefix::Replace);
                } else if let Some(fp) = find_key(c) {
                    self.set_find(fp);
                } else if c == ';' || c == ',' {
                    self.repeat_find(d, c == ',', answer);
                } else if c == 'i' {
                    self.enter_insert_at(d, None);
                } else if c == 'a' {
                    self.enter_insert_at(d, Some(1));
                } else if c == 'I' {
                    self.insert_first_non_blank(d);
                } else if c == 'A' {
                    self.insert_line_end(d);
                } else if c == 'o' || c == 'O' {
                    self.open_line(d, c == 'o');
                } else if c == 's' {
                    self.substitute_char(d);
                } else if c == 'S' {
                    self.change_current_lines(d);
                } else if c == 'C' {
                    self.operate_to_line_end(d, Operator::Change);
                } else if c == 'D' {
                    self.operate_to_line_end(d, Operator::Delete);
                } else if c == 'x' || c == 'X' {
                    self.delete_char(d, c == 'x');
                } else if c == '~' {
                    self.toggle_case_cmd(d);
                } else if c == 'J' {
                    self.join_lines();
                } else if c == 'p' || c == 'P' {
                    self.paste(d, c == 'P', answer);
                } else if c == 'u' {
                    self.repeat_command("edit.undo");
                } else if c == '.' {
                    self.dot_repeat();
                } else if c == 'v' {
                    self.enter_visual(d, Mode::Visual);
                } else if c == 'V' {
                    self.enter_visual(d, Mode::VisualLine);
                } else if c == ':' {
                    self.open_command();
                } else if c == '/' || c == '?' {
                    self.open_search(c == '/');
                } else if c == 'n' || c == 'N' {
                    self.search_next(d, c == 'N');
                } else if c == '*' || c == '#' {
                    self.search_word(d, c == '*', answer);
                } else if c == 'j' {
                    self.move_by_lines(true, false);
                } else if c == 'k' {
                    self.move_by_lines(false, false);
                } else {
                    self.plain_motion(d, key.code, page, answer);
                }
            },
            _ => {
                self.plain_motion(d, key.code, page, answer);
            },
        }
    }

    fn operator_motion(
        &mut self,
        d: Option<&Doc>,
        op: Operator,
        code: KeyCode,
        page: usize,
        answer: &Answer,
    )
        requires
            opt_wf(d),
        ensures
            final(self)@ == old(self)@.operator_motion(d, op, code, page as int, answer),
    {
        let typed: Option<usize> = self.vim.count_opt();
        match motion(d, code, typed, page, answer) {
            Some((t, kind)) => {
                let from: usize = primary_head(d);
                self.apply_operator_kind(d, op, from, t, kind);
                self.clear();
            },
            None => {
                self.clear();
            },
        }
    }

    /// Handle a key behind an operator.
    fn operator_pending(
        &mut self,
        d: Option<&Doc>,
        op: Operator,
        key: Key,
        page: usize,
        answer: &Answer,
    )
        requires
            opt_wf(d),
        ensures
            final(self)@ == old(self)@.operator_key(d, op, key, page as int, answer),
    {
        proof {
            reveal(Step::operator_key);
        }
        match key.code {
            KeyCode::Char(c) => {
                if c >= '0' && c <= '9' && (c != '0' || self.vim.count_active()) {
                    self.type_digit(c);
                } else if c == '"' {
                    self.set_prefix(Prefix::Register);
                } else if c == double_key(op) {
                    self.linewise_current(d, op);
                    self.clear();
                } else if c == 'i' || c == 'a' {
                    self.set_prefix(Prefix::Object { around: c == 'a' });
                } else if c == 'g' {
                    self.set_prefix(Prefix::G);
                } else if let Some(fp) = find_key(c) {
                    self.set_find(fp);
                } else if c == ';' || c == ',' {
                    self.repeat_find(d, c == ',', answer);
                } else {
                    self.operator_motion(d, op, key.code, page, answer);
                }
            },
            _ => {
                self.operator_motion(d, op, key.code, page, answer);
            },
        }
    }

    /// Select a text object, or apply the operator to it.
    fn apply_text_object(&mut self, d: Option<&Doc>, obj: TextObject, answer: &Answer)
        requires
            opt_wf(d),
        ensures
            final(self)@ == old(self)@.text_object(d, obj, answer.range),
    {
        match (d, answer.range) {
            (Some(_), Some((s, e))) => {
                if self.vim.mode == Mode::Visual || self.vim.mode == Mode::VisualLine {
                    self.ask(Effect::Select { anchor: s, head: max_of(minus_of(e, 1), s) });
                } else {
                    match self.vim.operator {
                        Some(op) => {
                            self.apply_operator_range(d, op, s, e, obj == TextObject::Paragraph);
                        },
                        None => {},
                    }
                }
                self.clear();
            },
            _ => {
                self.clear();
            },
        }
    }

    fn g_prefix(&mut self, d: Option<&Doc>, key: Key, answer: &Answer)
        requires
            opt_wf(d),
        ensures
            final(self)@ == old(self)@.g_key(d, key, answer),
    {
        let known: Option<usize> = match (d, answer.pos) {
            (Some(_), Some(p)) => Some(p),
            _ => None,
        };
        match key.code {
            KeyCode::Char(c) => {
                if c == 'g' || c == '_' {
                    match known {
                        Some(t) => {
                            self.motion_result(
                                d,
                                t,
                                if c == 'g' {
                                    MotionKind::Linewise
                                } else {
                                    MotionKind::Inclusive
                                },
                            );
                        },
                        None => {
                            self.clear();
                        },
                    }
                } else if c == 'e' || c == 'E' {
                    let t: usize = match known {
                        Some(t) => t,
                        None => 0,
                    };
                    self.motion_result(d, t, MotionKind::Inclusive);
                } else if self.vim.operator.is_some() {
                    self.clear();
                } else if c == 'u' {
                    self.set_operator(Operator::Lower);
                } else if c == 'U' {
                    self.set_operator(Operator::Upper);
                } else if c == '~' {
                    self.set_operator(Operator::ToggleCase);
                } else if c == 'I' || c == 'i' {
                    self.insert_col1(d);
                } else {
                    self.clear();
                }
            },
            _ => {
                self.clear();
            },
        }
    }

    fn z_prefix(&mut self, d: Option<&Doc>, key: Key, page: usize)
        requires
            opt_wf(d),
        ensures
            final(self)@ == old(self)@.z_key(d, key, page as int),
    {
        let height: usize = max_of(page, 1);
        match d {
            None => {},
            Some(d) => {
                let line: usize = d.char_to_line(d.head);
                let scroll: Option<usize> = match key.code {
                    KeyCode::Enter => Some(line),
                    KeyCode::Char(c) => {
                        if c == 'z' || c == '.' {
                            Some(minus_of(line, height / 2))
                        } else if c == 't' {
                            Some(line)
                        } else if c == 'b' {
                            Some(minus_of(line, height - 1))
                        } else {
                            None
                        }
                    },
                    _ => None,
                };
                match scroll {
                    Some(l) => {
                        self.ask(Effect::SetScroll(min_of(l, d.lines.len() - 1)));
                        self.clear();
                    },
                    None => {},
                }
            },
        }
    }

    /// Handle a key behind a prefix.
    fn handle_prefix(
        &mut self,
        d: Option<&Doc>,
        prefix: Prefix,
        key: Key,
        page: usize,
        answer: &Answer,
    )
        requires
            opt_wf(d),
        ensures
            final(self)@ == old(self)@.prefix_key(d, prefix, key, page as int, answer),
    {
        proof {
            reveal(Step::prefix_key);
        }
        self.vim.prefix = None;
        match prefix {
            Prefix::Register => {
                match key.code {
                    KeyCode::Char(c) => {
                        self.vim.register = Some(c);
                    },
                    _ => {},
                }
            },
            Prefix::Replace => {
                let ch: Option<char> = match key.code {
                    KeyCode::Char(c) => Some(c),
                    KeyCode::Enter => Some('\n'),
                    _ => None,
                };
                match ch {
                    Some(c) => {
                        if self.vim.mode == Mode::Visual || self.vim.mode == Mode::VisualLine {
                            self.visual_replace(d, c);
                        } else {
                            self.replace_char(d, c);
                        }
                    },
                    None => {
                        self.clear();
                    },
                }
            },
            Prefix::Object { around: _ } => {
                match object_from_key(key.code) {
                    Some(obj) => {
                        self.apply_text_object(d, obj, answer);
                    },
                    None => {
                        self.clear();
                    },
                }
            },
            Prefix::G => {
                self.g_prefix(d, key, answer);
            },
            Prefix::Z => {
                self.z_prefix(d, key, page);
            },
        }
    }

    /// Handle a key in normal mode; whether it was taken.
    pub fn normal_key(&mut self, d: Option<&Doc>, key: Key, page: usize, answer: &Answer) -> (r:
        bool)
        requires
            opt_wf(d),
        ensures
            (final(self)@, r) == old(self)@.normal_key(d, key, page as int, answer),
    {
        proof {
            reveal(Step::normal_key);
        }
        if key.code == KeyCode::Esc {
            self.clear();
            return true;
        }
        if let Some(fp) = self.vim.find_pending {
            self.vim.find_pending = None;
            match key.code {
                KeyCode::Char(c) => {
                    self.find_apply(d, fp, c, true, answer);
                },
                _ => {
                    self.clear();
                },
            }
            return true;
        }
        if let Some(prefix) = self.vim.prefix {
            self.handle_prefix(d, prefix, key, page, answer);
            return true;
        }
        if key.ctrl {
            return match key.code {
                KeyCode::Char(c) => {
                    if c == 'r' {
                        self.repeat_command("edit.redo");
                        true
                    } else if c == 'd' || c == 'u' {
                        self.scroll(c == 'd', true, page);
                        true
                    } else if c == 'f' || c == 'b' {
                        self.scroll(c == 'f', false, page);
                        true
                    } else {
                        false
                    }
                },
                _ => false,
            };
        }
        if key.alt {
            return false;
        }
        match self.vim.operator {
            Some(op) => {
                self.operator_pending(d, op, key, page, answer);
            },
            None => {
                self.normal_idle(d, key, page, answer);
            },
        }
        true
    }

    fn visual_motion(&mut self, d: Option<&Doc>, code: KeyCode, page: usize, answer: &Answer)
        requires
            opt_wf(d),
        ensures
            final(self)@ == old(self)@.visual_motion(d, code, page as int, answer),
    {
        let typed: Option<usize> = self.vim.count_opt();
        match motion(d, code, typed, page, answer) {
            Some((t, _kind)) => {
                self.visual_set_head(d, t);
                self.vim.count = None;
            },
            None => {
                self.clear();
            },
        }
    }

    /// Handle a key in a visual mode.
    pub fn visual_key(&mut self, d: Option<&Doc>, key: Key, page: usize, answer: &Answer)
        requires
            opt_wf(d),
        ensures
            final(self)@ == old(self)@.visual_key(d, key, page as int, answer),
    {
        proof {
            reveal(Step::visual_key);
        }
        if key.code == KeyCode::Esc {
            self.set_mode(Mode::Normal);
            self.ask(Effect::Caret(primary_head(d)));
            self.clear();
            return;
        }
        if let Some(fp) = self.vim.find_pending {
            self.vim.find_pending = None;
            match key.code {
                KeyCode::Char(c) => {
                    self.find_apply(d, fp, c, true, answer);
                },
                _ => {},
            }
            return;
        }
        if let Some(prefix) = self.vim.prefix {
            self.handle_prefix(d, prefix, key, page, answer);
            return;
        }
        match key.code {
            KeyCode::Down => {
                self.move_by_lines(true, true);
            },
            KeyCode::Up => {
                self.move_by_lines(false, true);
            },
            KeyCode::Char(c) => {
                if (c >= '1' && c <= '9') || (c == '0' && self.vim.count_active()) {
                    self.type_digit(c);
                } else if c == '"' {
                    self.set_prefix(Prefix::Register);
                } else if c == 'v' {
                    self.enter_visual(d, Mode::Visual);
                } else if c == 'V' {
                    self.enter_visual(d, Mode::VisualLine);
                } else if c == 'o' {
                    self.swap_ends(d);
                } else if c == 'i' || c == 'a' {
                    self.set_prefix(Prefix::Object { around: c == 'a' });
                } else if c == 'g' {
                    self.set_prefix(Prefix::G);
                } else if let Some(fp) = find_key(c) {
                    self.set_find(fp);
                } else if c == ';' || c == ',' {
                    self.repeat_find(d, c == ',', answer);
                } else if let Some(op) = selection_operator_key(c) {
                    self.visual_operator(d, op);
                } else if c == 'r' {
                    self.set_prefix(Prefix::Replace);
                } else if c == 'J' {
                    self.join_selected(d);
                } else if c == 'j' {
                    self.move_by_lines(true, true);
                } else if c == 'k' {
                    self.move_by_lines(false, true);
                } else {
                    self.visual_motion(d, key.code, page, answer);
                }
            },
            _ => {
                self.visual_motion(d, key.code, page, answer);
            },
        }
    }
}

} // verus!
