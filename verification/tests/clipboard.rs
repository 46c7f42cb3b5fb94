use editor_builtins::clipboard::ClipboardPlugin;
use editor_builtins::doc::{Doc, Line, Selection};
use editor_builtins::effect::{Effect, SpanEdit};

fn lines_of(chars: &[char]) -> Vec<Line> {
    let mut lines = Vec::new();
    let mut start = 0;
    for (i, c) in chars.iter().enumerate() {
        if *c == '\n' {
            lines.push(Line { start, len: i - start });
            start = i + 1;
        }
    }
    lines.push(Line { start, len: chars.len() - start });
    lines
}

fn doc(text: &str, anchor: usize, head: usize) -> Doc {
    let chars: Vec<char> = text.chars().collect();
    let lines = lines_of(&chars);
    Doc { chars, lines, anchor, head, tab_width: 4, scroll_line: 0, revision: 0 }
}

/// An editor of one document with one selection, and a clipboard.
struct Editor {
    doc: Doc,
    clip: String,
}

impl Editor {
    fn new(text: &str) -> Editor {
        Editor { doc: doc(text, 0, 0), clip: String::new() }
    }

    fn select(&mut self, from: usize, to: usize) {
        self.doc.anchor = from;
        self.doc.head = to;
    }

    fn caret(&mut self, at: usize) {
        self.select(at, at);
    }

    fn text(&self) -> String {
        self.doc.chars.iter().collect()
    }

    fn perform(&mut self, e: Effect) {
        match e {
            Effect::ClipboardWrite(t) => self.clip = t,
            Effect::EditSelections(edits) => {
                assert_eq!(edits.len(), 1);
                for e in &edits {
                    let new: Vec<char> = e.text.chars().collect();
                    self.doc.chars.splice(e.start..e.end, new);
                }
            }
            other => panic!("unexpected {other:?}"),
        }
    }

    fn run(&mut self, command: &str) {
        let sels = [Selection { anchor: self.doc.anchor, head: self.doc.head }];
        let lefts = [self.doc.head.saturating_sub(1)];
        let out = ClipboardPlugin::run_command(command, Some(&self.doc), &sels, &lefts, &self.clip);
        for e in out.expect("a clipboard command") {
            self.perform(e);
        }
    }
}

#[test]
fn copy_writes_the_primary_selection() {
    let mut host = Editor::new("hello world");
    host.select(0, 5);
    host.run("edit.copy");
    assert_eq!(host.clip, "hello");
    assert_eq!(host.text(), "hello world"); // copy never edits
}

#[test]
fn copy_on_empty_caret_is_a_noop() {
    let mut host = Editor::new("hello");
    host.clip = "keep".into();
    host.caret(2);
    host.run("edit.copy");
    assert_eq!(host.clip, "keep", "an empty caret has nothing to copy");
}

#[test]
fn cut_writes_then_deletes_the_selection() {
    let mut host = Editor::new("hello world");
    host.select(0, 6); // "hello "
    host.run("edit.cut");
    assert_eq!(host.clip, "hello ");
    assert_eq!(host.text(), "world");
}

#[test]
fn cut_on_empty_caret_is_inert() {
    let mut host = Editor::new("abc");
    host.caret(3);
    host.run("edit.cut");
    assert_eq!(host.clip, "");
    assert_eq!(host.text(), "abc", "cut needs a non-empty selection");
}

#[test]
fn paste_inserts_at_the_caret() {
    let mut host = Editor::new("ab");
    host.clip = "X".into();
    host.caret(1);
    host.run("edit.paste");
    assert_eq!(host.text(), "aXb");
}

#[test]
fn paste_replaces_a_selection() {
    let mut host = Editor::new("hello");
    host.clip = "Z".into();
    host.select(0, 5);
    host.run("edit.paste");
    assert_eq!(host.text(), "Z");
}

#[test]
fn paste_empty_clipboard_over_caret_is_a_noop() {
    let mut host = Editor::new("ab");
    host.caret(1);
    host.run("edit.paste");
    assert_eq!(
        host.text(),
        "ab",
        "pasting nothing at a caret records no edit"
    );
    let d = doc("ab", 1, 1);
    let out = ClipboardPlugin::run_command(
        "edit.paste",
        Some(&d),
        &[Selection { anchor: 1, head: 1 }],
        &[0],
        "",
    );
    assert_eq!(out, Some(vec![]));
}

#[test]
fn unknown_command_is_not_handled() {
    let d = doc("x", 0, 0);
    let sels = [Selection { anchor: 0, head: 0 }];
    assert!(ClipboardPlugin::run_command("edit.somethingElse", Some(&d), &sels, &[0], "").is_none());
}

#[test]
fn cutting_takes_every_selection_and_what_is_before_bare_carets() {
    let d = doc("hello world", 5, 0);
    let sels = [Selection { anchor: 5, head: 0 }, Selection { anchor: 8, head: 8 }];
    let out = ClipboardPlugin::run_command("edit.cut", Some(&d), &sels, &[0, 7], "old").unwrap();
    assert_eq!(
        out,
        vec![
            Effect::ClipboardWrite("hello".into()),
            Effect::EditSelections(vec![
                SpanEdit { start: 0, end: 5, text: String::new() },
                SpanEdit { start: 7, end: 8, text: String::new() },
            ]),
        ]
    );
}

#[test]
fn pasting_goes_to_every_selection() {
    let d = doc("abcd", 0, 0);
    let sels = [Selection { anchor: 0, head: 0 }, Selection { anchor: 3, head: 2 }];
    let out = ClipboardPlugin::run_command("edit.paste", Some(&d), &sels, &[0, 1], "é").unwrap();
    assert_eq!(
        out,
        vec![Effect::EditSelections(vec![
            SpanEdit { start: 0, end: 0, text: "é".into() },
            SpanEdit { start: 2, end: 3, text: "é".into() },
        ])]
    );
}

#[test]
fn without_a_document_nothing_is_asked_for() {
    for command in ["edit.copy", "edit.cut", "edit.paste"] {
        assert_eq!(ClipboardPlugin::run_command(command, None, &[], &[], "x"), Some(vec![]));
    }
}
