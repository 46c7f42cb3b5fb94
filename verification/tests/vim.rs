use editor_builtins::doc::{Doc, Line};
use editor_builtins::effect::{Change, Effect};
use editor_builtins::key::{Key, KeyCode};
use editor_builtins::vim::motion::{Answer, Query, StepKind};
use editor_builtins::vim::operators::toggle_case;
use editor_builtins::vim::plugin::VimPlugin;
use editor_builtins::vim::search::search_literal;
use editor_builtins::vim::state::{Mode, VimState};

fn lines_of(chars: &[char]) -> Vec<Line> {
    let mut lines = Vec::new();
    let mut start = 0;
    for (i, c) in chars.iter().enumerate() {
        if *c == '\n' {
            lines.push(Line { start, len: i - start });
            start = i + 1;
        }
    }
    lines.push(Line { start, len: chars.len() - start });
    lines
}

/// An editor of one document, driven by keys.
struct Editor {
    vim: VimPlugin,
    doc: Doc,
    clip: String,
    executed: Vec<String>,
}

fn editor(text: &str) -> Editor {
    let chars: Vec<char> = text.chars().collect();
    let lines = lines_of(&chars);
    let doc = Doc { chars, lines, anchor: 0, head: 0, tab_width: 4, scroll_line: 0, revision: 0 };
    let mut vim = VimPlugin::new();
    let _ = vim.set_enabled(true);
    Editor { vim, doc, clip: String::new(), executed: vec![] }
}

impl Editor {
    fn text(&self) -> String {
        self.doc.chars.iter().collect()
    }

    fn mode(&self) -> Mode {
        self.vim.badge().unwrap().mode
    }

    fn apply(&mut self, changes: Vec<Change>) {
        for c in changes.iter().rev() {
            let n = c.removed.chars().count();
            let old: String = self.doc.chars[c.at..c.at + n].iter().collect();
            assert_eq!(old, c.removed);
            let new: Vec<char> = c.inserted.chars().collect();
            self.doc.chars.splice(c.at..c.at + n, new);
        }
        self.doc.lines = lines_of(&self.doc.chars);
        self.doc.revision += 1;
        let end = self.doc.chars.len();
        self.doc.head = self.doc.head.min(end);
        self.doc.anchor = self.doc.anchor.min(end);
    }

    fn caret(&mut self, p: usize) {
        let p = p.min(self.doc.chars.len());
        self.doc.anchor = p;
        self.doc.head = p;
    }

    fn first_non_blank(&self, line: usize) -> usize {
        let l = self.doc.lines[line];
        let blanks = self.doc.chars[l.start..l.start + l.len]
            .iter()
            .take_while(|c| c.is_whitespace())
            .count();
        l.start + blanks
    }

    fn word_start(&self, mut p: usize) -> usize {
        let c = &self.doc.chars;
        while p < c.len() && !c[p].is_whitespace() {
            p += 1;
        }
        while p < c.len() && c[p].is_whitespace() {
            p += 1;
        }
        p
    }

    fn answer(&self, q: Query) -> Answer {
        let mut a = Answer { pos: None, range: None, text: String::new() };
        match q {
            Query::FirstNonBlank(l) => a.pos = Some(self.first_non_blank(l)),
            Query::Steps { step: StepKind::WordStart { .. }, count } => {
                let mut p = self.doc.head;
                for _ in 0..count {
                    p = self.word_start(p);
                }
                a.pos = Some(p);
            }
            Query::Clipboard => a.text = self.clip.clone(),
            _ => {}
        }
        a
    }

    fn perform(&mut self, e: Effect) {
        match e {
            Effect::Apply(c) => self.apply(c),
            Effect::Caret(p) => self.caret(p),
            Effect::Select { anchor, head } => {
                self.doc.anchor = anchor;
                self.doc.head = head.min(self.doc.chars.len());
            }
            Effect::CaretFirstNonBlank(l) => {
                let p = self.first_non_blank(l);
                self.caret(p);
            }
            Effect::CaretFirstNonBlankAt(p) => {
                let l = self.doc.char_to_line(p.min(self.doc.chars.len()));
                let p = self.first_non_blank(l);
                self.caret(p);
            }
            Effect::MoveLines { delta, .. } => {
                let l = self.doc.char_to_line(self.doc.head);
                let last = self.doc.lines.len() as isize - 1;
                let to = (l as isize + delta).clamp(0, last) as usize;
                let column = self.doc.head - self.doc.lines[l].start;
                let p = self.doc.lines[to].start + column.min(self.doc.lines[to].len);
                self.caret(p);
            }
            Effect::ClipboardWrite(t) => self.clip = t,
            Effect::Execute(c) => self.executed.push(c),
            Effect::ExecuteTimes(c, n) => {
                for _ in 0..n {
                    self.executed.push(c.clone());
                }
            }
            Effect::Replay(n) => {
                for _ in 0..n {
                    for k in self.vim.replay_keys() {
                        self.press(k);
                    }
                }
                self.vim.end_replay();
            }
            _ => {}
        }
    }

    fn press(&mut self, key: Key) -> bool {
        let q = self.vim.query(Some(&self.doc), key, 20);
        let a = self.answer(q);
        let o = self.vim.handle_key(Some(&self.doc), key, 20, &a);
        for e in o.effects {
            self.perform(e);
        }
        if !o.consumed {
            if let (KeyCode::Char(c), Mode::Insert) = (key.code, self.mode()) {
                let at = self.doc.head;
                self.apply(vec![Change { at, removed: String::new(), inserted: c.into() }]);
                self.caret(at + 1);
            }
        }
        if o.finish {
            self.vim.finish_key(self.doc.revision);
        }
        o.consumed
    }

    fn keys(&mut self, s: &str) {
        for c in s.chars() {
            let code = if c == '\u{1b}' { KeyCode::Esc } else { KeyCode::Char(c) };
            self.press(Key::plain(code));
        }
    }
}

#[test]
fn counts_multiply() {
    let mut e = editor("a b c d e f g h");
    e.keys("2d3w");
    assert_eq!(e.text(), "g h");
}

#[test]
fn lines_are_deleted_and_put_back() {
    let mut e = editor("one\ntwo\nthree");
    e.keys("dd");
    assert_eq!(e.text(), "two\nthree");
    e.keys("p");
    assert_eq!(e.text(), "two\none\nthree");
}

#[test]
fn a_named_register_reads_back() {
    let mut e = editor("one\ntwo");
    e.keys("\"ayy");
    e.keys("\"byyj");
    e.keys("\"ap");
    assert_eq!(e.text(), "one\ntwo\none");
}

#[test]
fn the_clipboard_register_is_the_clipboard() {
    let mut e = editor("one\ntwo");
    e.keys("\"+yy");
    assert_eq!(e.clip, "one\n");
}

#[test]
fn the_dot_repeats_the_last_change() {
    let mut e = editor("abcdef");
    e.keys("x.");
    assert_eq!(e.text(), "cdef");
}

#[test]
fn a_repeated_change_stays_the_last_one() {
    let mut e = editor("abcdefgh");
    e.keys("x2.");
    assert_eq!(e.text(), "defgh");
    e.keys(".");
    assert_eq!(e.text(), "efgh");
    e.keys("r..");
    assert_eq!(e.text(), ".fgh");
}

#[test]
fn the_dot_repeats_what_was_typed() {
    let mut e = editor("ab\ncd");
    e.keys("Ix\u{1b}");
    assert_eq!(e.text(), "xab\ncd");
    assert_eq!(e.mode(), Mode::Normal);
    e.keys(".");
    assert_eq!(e.text(), "xxab\ncd");
}

#[test]
fn insertion_starts_in_the_first_column() {
    for keys in ["gIx", "gix"] {
        let mut e = editor("  ab");
        e.keys("$");
        e.keys(keys);
        assert_eq!(e.text(), "x  ab", "{keys}");
        assert_eq!(e.mode(), Mode::Insert);
    }
}

#[test]
fn escape_cancels_what_is_pending() {
    let mut e = editor("a b c");
    e.keys("2d\u{1b}x");
    assert_eq!(e.text(), " b c");
}

#[test]
fn unowned_chords_fall_through() {
    let mut e = editor("abc");
    let ctrl_s = Key { code: KeyCode::Char('s'), ctrl: true, alt: false, shift: false };
    assert!(!e.press(ctrl_s));
    let ctrl_r = Key { code: KeyCode::Char('r'), ctrl: true, alt: false, shift: false };
    assert!(e.press(ctrl_r));
    assert_eq!(e.executed.len(), 1);
}

#[test]
fn the_command_line_substitutes_literally() {
    let mut e = editor("a.b a.b\naxb");
    e.keys(":%s/a.b/Z/g");
    e.press(Key::plain(KeyCode::Enter));
    assert_eq!(e.text(), "Z Z\naxb");
}

#[test]
fn the_command_line_goes_to_a_line() {
    let mut e = editor("one\ntwo\nthree");
    e.keys(":3");
    e.press(Key::plain(KeyCode::Enter));
    assert_eq!(e.doc.head, 8);
}

#[test]
fn case_is_folded_by_operators() {
    let mut e = editor("straße x");
    e.keys("gUw");
    assert_eq!(e.text(), "STRASSE x");
    assert_eq!(toggle_case('É'), "é");
    assert_eq!(toggle_case('é'), "É");
}

#[test]
fn searching_goes_round() {
    let text: Vec<char> = "abcabc".chars().collect();
    let bc: Vec<char> = "bc".chars().collect();
    assert_eq!(search_literal(&text, &bc, 2, true), Some(4));
    assert_eq!(search_literal(&text, &bc, 5, true), Some(1));
    assert_eq!(search_literal(&text, &"x".chars().collect(), 0, true), None);
}

#[test]
fn a_selection_is_deleted() {
    let mut e = editor("abcdef");
    e.keys("vl");
    assert_eq!(e.mode(), Mode::Visual);
    e.keys("d");
    assert_eq!(e.text(), "cdef");
    assert_eq!(e.mode(), Mode::Normal);
}

#[test]
fn counts_and_hints_are_kept_in_the_state() {
    let mut s = VimState::new();
    assert!(s.is_idle());
    assert_eq!(s.effective_count(), 1);
    s.push_digit(1);
    s.push_digit(2);
    assert!(s.has_count());
    assert_eq!(s.effective_count(), 12);
    assert_eq!(s.pending_hint().as_deref(), Some("12"));
    s.clear_pending();
    assert!(s.is_idle());
}

#[test]
fn the_layer_is_switched_by_commands() {
    let mut p = VimPlugin::new();
    assert!(p.badge().is_none());
    assert!(p.run_command("vim.toggle").is_some());
    assert!(p.badge().is_some());
    assert!(p.run_command("vim.disable").is_some());
    assert!(p.badge().is_none());
    assert!(p.run_command("edit.copy").is_none());
}

#[test]
fn swapping_the_ends_of_a_selection_twice_gives_it_back() {
    let mut e = editor("one two\n");
    e.keys("vlll");
    let before = (e.doc.anchor, e.doc.head);
    e.keys("o");
    assert_eq!((e.doc.head, e.doc.anchor), before);
    e.keys("o");
    assert_eq!((e.doc.anchor, e.doc.head), before);
}
