//! The `:` command line: line jumps, write and quit, `:noh`, and `:s///` substitution.

use vstd::prelude::*;

use crate::doc::{lesser, min_of, minus, minus_of, opt_wf, Doc};
use crate::effect::{replaced, replacing, Effect, EffectView};
use crate::format::{char_count, join2};
use crate::key::{Key, KeyCode};
use crate::number::{parse_usize, parsed};
use crate::text::{
    chars_of, same, stands, stands_at, starts_with, string_of, trim, trimmed,
};
use crate::vim::session::{Session, Step};
use crate::vim::state::Vim;

verus! {

/// The line that a text names, if it is a number.
pub open spec fn line_number(s: Seq<char>) -> Option<int> {
    parsed(s, usize::MAX as int)
}

/// The next slash from `i` on, or the end.
pub open spec fn slash_at(s: Seq<char>, i: int) -> int
    decreases s.len() - i,
{
    if 0 <= i < s.len() && s[i] != '/' {
        slash_at(s, i + 1)
    } else {
        i
    }
}

/// The place after the percent signs at the start, from `i` on.
pub open spec fn percent_end(s: Seq<char>, i: int) -> int
    decreases s.len() - i,
{
    if 0 <= i < s.len() && s[i] == '%' {
        percent_end(s, i + 1)
    } else {
        i
    }
}

/// The parts of a substitute command: what is replaced, by what, and whether everywhere.
pub struct Substitution {
    pub old: Seq<char>,
    pub new: Seq<char>,
    pub global: bool,
}

/// The part between the slash at `i` and the next one; none where there is no slash at `i`.
pub open spec fn part_after(s: Seq<char>, i: int) -> Option<Seq<char>> {
    if i >= s.len() {
        None
    } else {
        Some(s.subrange(i + 1, slash_at(s, i + 1)))
    }
}

/// What a substitute command asks for: `old`, `new` and flags between slashes.
pub open spec fn substitution(s: Seq<char>) -> Option<Substitution> {
    let p = percent_end(s, 0);
    let b = if p < s.len() && s[p] == 's' {
        p + 1
    } else {
        p
    };
    let first = slash_at(s, b);
    let second = slash_at(s, first + 1);
    let third = slash_at(s, second + 1);
    match part_after(s, first) {
        None => None,
        Some(old) => if old.len() == 0 {
            None
        } else {
            Some(
                Substitution {
                    old,
                    new: match part_after(s, second) {
                        Some(n) => n,
                        None => Seq::empty(),
                    },
                    global: third < s.len() && s.subrange(third + 1, s.len() as int).contains('g'),
                },
            )
        },
    }
}

/// Text from `i` on with `old` replaced by `new`, at most `left` times, after `acc`.
pub open spec fn substituted(
    s: Seq<char>,
    old: Seq<char>,
    new: Seq<char>,
    i: int,
    left: int,
    acc: Seq<char>,
) -> Seq<char>
    decreases s.len() - i,
{
    if i < 0 || i >= s.len() || old.len() == 0 {
        acc
    } else if left > 0 && stands(s, old, i) {
        substituted(s, old, new, i + old.len(), left - 1, acc + new)
    } else {
        substituted(s, old, new, i + 1, left, acc.push(s[i]))
    }
}

/// The characters that a substitute command works on: all, or the caret's line.
pub open spec fn substitute_range(d: &Doc, whole: bool) -> (int, int) {
    if whole {
        (0, d.size())
    } else {
        let line = d.line_of(d.head as int);
        (d.start(line), d.end(line))
    }
}

impl Step {
    pub open spec fn open_command(self) -> Step {
        Step {
            vim: Vim { command: Some(Seq::empty()), recording: None, ..self.vim },
            out: self.out,
        }
    }

    /// A key in the open command line.
    #[verifier::opaque]
    pub open spec fn command_key(self, d: Option<&Doc>, key: Key) -> Step {
        let closed = Step { vim: Vim { command: None, ..self.vim }, out: self.out };
        match self.vim.command {
            None => self,
            Some(cmd) => match key.code {
                KeyCode::Esc => closed,
                KeyCode::Enter => closed.run_ex(d, trimmed(cmd)),
                KeyCode::Backspace => if cmd.len() <= 1 {
                    closed
                } else {
                    Step { vim: Vim { command: Some(cmd.drop_last()), ..self.vim }, out: self.out }
                },
                KeyCode::Char(c) => if key.ctrl {
                    self
                } else {
                    Step { vim: Vim { command: Some(cmd.push(c)), ..self.vim }, out: self.out }
                },
                _ => self,
            },
        }
    }

    /// A command of the command line, without the whitespace around it.
    pub open spec fn run_ex(self, d: Option<&Doc>, cmd: Seq<char>) -> Step {
        if cmd.len() == 0 {
            self
        } else if line_number(cmd) is Some {
            match d {
                None => self,
                Some(d) => self.ask(
                    EffectView::CaretFirstNonBlank(
                        lesser(minus(line_number(cmd).unwrap(), 1), d.last()),
                    ),
                ),
            }
        } else if cmd == "w"@ || cmd == "write"@ {
            self.ask(EffectView::Execute("file.save"@))
        } else if cmd == "wq"@ || cmd == "x"@ || cmd == "wq!"@ || cmd == "x!"@ {
            self.ask(EffectView::Execute("file.save"@)).ask(EffectView::Execute("tab.close"@))
        } else if cmd == "wa"@ || cmd == "wall"@ {
            self.ask(EffectView::Execute("file.saveAll"@))
        } else if cmd == "q"@ || cmd == "quit"@ {
            self.ask(EffectView::Execute("tab.close"@))
        } else if cmd == "q!"@ || cmd == "quit!"@ {
            self.ask(EffectView::SetDirty(false)).ask(EffectView::Execute("tab.close"@))
        } else if cmd == "qa"@ || cmd == "qall"@ || cmd == "qa!"@ || cmd == "quitall"@ || cmd
            == "quitall!"@ {
            self.ask(EffectView::Execute("app.quit"@))
        } else if cmd == "noh"@ || cmd == "nohl"@ || cmd == "nohlsearch"@ {
            self.ask(EffectView::DismissPrompt).ask(EffectView::ClearDecorations("find.match"@))
        } else if starts_with(cmd, "s/"@) || starts_with(cmd, "%s/"@) {
            self.substitute_ex(d, cmd)
        } else {
            self.ask(EffectView::Notify("Not an editor command: "@ + cmd))
        }
    }

    /// A substitute command: the text that it changes is replaced, and the caret put at its start.
    pub open spec fn substitute_ex(self, d: Option<&Doc>, cmd: Seq<char>) -> Step {
        match (d, substitution(cmd)) {
            (Some(d), Some(sub)) => {
                let r = substitute_range(d, cmd.len() > 0 && cmd[0] == '%');
                let src = d.slice(r.0, r.1);
                let out = substituted(
                    src,
                    sub.old,
                    sub.new,
                    0,
                    if sub.global {
                        src.len() as int
                    } else {
                        1
                    },
                    Seq::empty(),
                );
                if out == src {
                    self
                } else {
                    self.ask(replaced(d, r.0, r.1, out)).ask(EffectView::Caret(r.0))
                }
            },
            _ => self,
        }
    }
}

fn begins_with(s: &Vec<char>, p: &str) -> (r: bool)
    ensures
        r == starts_with(s@, p@),
{
    let q: Vec<char> = chars_of(p);
    if s.len() < q.len() {
        return false;
    }
    let mut i: usize = 0;
    while i < q.len()
        invariant
            i <= q.len() <= s.len(),
            q@ == p@,
            forall|k: int| 0 <= k < i ==> s@[k] == q@[k],
        decreases q.len() - i,
    {
        if s[i] != q[i] {
            assert(s@.take(p@.len() as int)[i as int] != p@[i as int]);
            return false;
        }
        i += 1;
    }
    assert(s@.take(p@.len() as int) =~= p@);
    true
}

fn next_slash(s: &Vec<char>, from: usize) -> (r: usize)
    ensures
        r == slash_at(s@, from as int),
        r >= from,
        from <= s@.len() ==> r <= s@.len(),
{
    let mut i: usize = from;
    while i < s.len() && s[i] != '/'
        invariant
            i >= from,
            from <= s@.len() ==> i <= s@.len(),
            slash_at(s@, from as int) == slash_at(s@, i as int),
        decreases s.len() - i,
    {
        i += 1;
    }
    i
}

fn contains_g(s: &Vec<char>, from: usize) -> (r: bool)
    requires
        from <= s@.len(),
    ensures
        r == s@.subrange(from as int, s@.len() as int).contains('g'),
{
    let ghost rest = s@.subrange(from as int, s@.len() as int);
    let mut i: usize = from;
    while i < s.len()
        invariant
            from <= i <= s.len(),
            rest == s@.subrange(from as int, s@.len() as int),
            forall|k: int| 0 <= k < i - from ==> rest[k] != 'g',
        decreases s.len() - i,
    {
        if s[i] == 'g' {
            assert(rest[i - from] == 'g');
            return true;
        }
        i += 1;
    }
    false
}

/// Text with `old` replaced by `new`: the first occurrence, or all.
fn substitute(s: &Vec<char>, old: &Vec<char>, new: &str, global: bool) -> (r: String)
    requires
        old@.len() > 0,
    ensures
        r@ == substituted(
            s@,
            old@,
            new@,
            0,
            if global {
                s@.len() as int
            } else {
                1
            },
            Seq::empty(),
        ),
{
    let mut out: String = String::new();
    assert(out@ =~= Seq::empty());
    let mut i: usize = 0;
    let mut left: usize = if global {
        s.len()
    } else {
        1
    };
    let ghost start = left as int;
    while i < s.len()
        invariant
            i <= s.len(),
            old@.len() > 0,
            substituted(s@, old@, new@, 0, start, Seq::empty()) == substituted(
                s@,
                old@,
                new@,
                i as int,
                left as int,
                out@,
            ),
        decreases s.len() - i,
    {
        if left > 0 && stands_at(s.as_slice(), old.as_slice(), i) {
            out.push_str(new);
            i = i + old.len();
            left -= 1;
        } else {
            out.push(s[i]);
            i += 1;
        }
    }
    out
}

impl Session {
    pub fn open_command(&mut self)
        ensures
            final(self)@ == old(self)@.open_command(),
    {
        let line: String = String::new();
        assert(line@ =~= Seq::empty());
        self.vim.command = Some(line);
        self.vim.recording = None;
    }

    /// Handle a key in the open command line.
    pub fn command_key(&mut self, d: Option<&Doc>, key: Key)
        requires
            opt_wf(d),
        ensures
            final(self)@ == old(self)@.command_key(d, key),
    {
        proof {
            reveal(Step::command_key);
        }
        let mut cmd: String = match self.vim.command.take() {
            Some(c) => c,
            None => {
                return;
            },
        };
        match key.code {
            KeyCode::Esc => {},
            KeyCode::Enter => {
                let line: String = trim(cmd.as_str());
                self.run_ex(d, line.as_str());
            },
            KeyCode::Backspace => {
                let _last: Option<char> = cmd.pop();
                if char_count(cmd.as_str()) > 0 {
                    self.vim.command = Some(cmd);
                }
            },
            KeyCode::Char(c) => {
                if !key.ctrl {
                    cmd.push(c);
                }
                self.vim.command = Some(cmd);
            },
            _ => {
                self.vim.command = Some(cmd);
            },
        }
    }

    fn execute(&mut self, command: &str)
        ensures
            final(self)@ == old(self)@.ask(EffectView::Execute(command@)),
    {
        self.ask(Effect::Execute(command.to_owned()));
    }

    /// Run a command of the command line.
    fn run_ex(&mut self, d: Option<&Doc>, cmd: &str)
        requires
            opt_wf(d),
        ensures
            final(self)@ == old(self)@.run_ex(d, cmd@),
    {
        let cs: Vec<char> = chars_of(cmd);
        if cs.len() == 0 {
            return;
        }
        match parse_usize(cmd) {
            Some(n) => {
                match d {
                    None => {},
                    Some(d) => {
                        let l: usize = min_of(minus_of(n, 1), d.lines.len() - 1);
                        self.ask(Effect::CaretFirstNonBlank(l));
                    },
                }
                return;
            },
            None => {},
        }
        if same(cmd, "w") || same(cmd, "write") {
            self.execute("file.save");
        } else if same(cmd, "wq") || same(cmd, "x") || same(cmd, "wq!") || same(cmd, "x!") {
            self.execute("file.save");
            self.execute("tab.close");
        } else if same(cmd, "wa") || same(cmd, "wall") {
            self.execute("file.saveAll");
        } else if same(cmd, "q") || same(cmd, "quit") {
            self.execute("tab.close");
        } else if same(cmd, "q!") || same(cmd, "quit!") {
            self.ask(Effect::SetDirty(false));
            self.execute("tab.close");
        } else if same(cmd, "qa") || same(cmd, "qall") || same(cmd, "qa!") || same(cmd, "quitall")
            || same(cmd, "quitall!") {
            self.execute("app.quit");
        } else if same(cmd, "noh") || same(cmd, "nohl") || same(cmd, "nohlsearch") {
            self.ask(Effect::DismissPrompt);
            self.ask(Effect::ClearDecorations("find.match".to_owned()));
        } else if begins_with(&cs, "s/") || begins_with(&cs, "%s/") {
            self.substitute_ex(d, &cs);
        } else {
            self.ask(Effect::Notify(join2("Not an editor command: ", cmd)));
        }
    }

    fn substitute_ex(&mut self, d: Option<&Doc>, s: &Vec<char>)
        requires
            opt_wf(d),
        ensures
            final(self)@ == old(self)@.substitute_ex(d, s@),
    {
        let doc: &Doc = match d {
            Some(doc) => doc,
            None => {
                return;
            },
        };
        let mut p: usize = 0;
        while p < s.len() && s[p] == '%'
            invariant
                p <= s.len(),
                percent_end(s@, 0) == percent_end(s@, p as int),
            decreases s.len() - p,
        {
            p += 1;
        }
        let b: usize = if p < s.len() && s[p] == 's' {
            p + 1
        } else {
            p
        };
        let first: usize = next_slash(s, b);
        if first >= s.len() {
            return;
        }
        let second: usize = next_slash(s, first + 1);
        if second == first + 1 {
            return;
        }
        let old_text: String = string_of(s.as_slice(), first + 1, second);
        let old_chars: Vec<char> = chars_of(old_text.as_str());
        let mut new_text: String = String::new();
        let mut global: bool = false;
        if second < s.len() {
            let third: usize = next_slash(s, second + 1);
            new_text = string_of(s.as_slice(), second + 1, third);
            if third < s.len() {
                global = contains_g(s, third + 1);
            }
        } else {
            assert(new_text@ =~= Seq::empty());
        }
        let whole: bool = s.len() > 0 && s[0] == '%';
        let (start, end) = if whole {
            (0usize, doc.chars.len())
        } else {
            let line: usize = doc.char_to_line(doc.head);
            (doc.line_to_char(line), doc.line_end(line))
        };
        let src: String = doc.text_between(start, end);
        let src_chars: Vec<char> = chars_of(src.as_str());
        let out: String = substitute(&src_chars, &old_chars, new_text.as_str(), global);
        if !same(out.as_str(), src.as_str()) {
            self.ask(replacing(doc, start, end, out));
            self.ask(Effect::Caret(start));
        }
    }
}

} // verus!
