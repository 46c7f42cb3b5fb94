use editor_builtins::doc::{Doc, Line, Selection};
use editor_builtins::effect::Effect;
use editor_builtins::git_nav::{goto_hunk, GitNavPlugin};
use editor_builtins::lsp_nav::LspNavPlugin;
use editor_builtins::multicursor::{find_next_occurrence, MultiCursorPlugin};
use editor_builtins::protocol::{Location, NavItem};

fn doc(text: &str, anchor: usize, head: usize) -> Doc {
    let chars: Vec<char> = text.chars().collect();
    let mut lines = Vec::new();
    let mut start = 0;
    for (i, c) in chars.iter().enumerate() {
        if *c == '\n' {
            lines.push(Line { start, len: i - start });
            start = i + 1;
        }
    }
    lines.push(Line { start, len: chars.len() - start });
    Doc { chars, lines, anchor, head, tab_width: 4, scroll_line: 0, revision: 0 }
}

#[test]
fn navigates_and_wraps_between_hunk_starts() {
    // Hunks starting at lines 1 and 5 (contiguous changes 5,6 collapse to one start at 5).
    let d = doc("l0\nl1\nl2\nl3\nl4\nl5\nl6\nl7", 0, 0);
    let changed = [1usize, 5, 6];

    // From line 0, next hunk is line 1.
    let s = goto_hunk(&d, &changed, true).unwrap();
    assert_eq!(d.char_to_line(s), 1);

    // From line 2 (place caret there), next is line 5; prev is line 1.
    let mut d2 = doc("l0\nl1\nl2\nl3\nl4\nl5\nl6\nl7", 0, 0);
    d2.head = d2.line_to_char(2);
    assert_eq!(d2.char_to_line(goto_hunk(&d2, &changed, true).unwrap()), 5);
    assert_eq!(d2.char_to_line(goto_hunk(&d2, &changed, false).unwrap()), 1);

    // From the last hunk, next wraps to the first.
    d2.head = d2.line_to_char(5);
    assert_eq!(d2.char_to_line(goto_hunk(&d2, &changed, true).unwrap()), 1);
}

#[test]
fn no_changes_is_a_noop() {
    let d = doc("a\nb\nc", 0, 0);
    assert!(goto_hunk(&d, &[], true).is_none());
}

#[test]
fn changed_lines_past_the_end_are_passed_over() {
    let d = doc("l0\nl1\nl2", 0, 0);
    assert_eq!(goto_hunk(&d, &[1, 100], true), Some(3));
    assert_eq!(goto_hunk(&d, &[1, 100], false), Some(3));
    assert_eq!(goto_hunk(&d, &[100], true), None);
    assert_eq!(
        GitNavPlugin::run_command("git.nextHunk", Some(&d), &[7]),
        Some(Vec::new())
    );
}

#[test]
fn hunk_commands_move_the_caret() {
    let d = doc("l0\nl1\nl2\nl3", 0, 0);
    assert_eq!(
        GitNavPlugin::run_command("git.prevHunk", Some(&d), &[3, 1, 3]),
        Some(vec![Effect::Caret(9)])
    );
    assert_eq!(
        GitNavPlugin::run_command("git.nextHunk", Some(&d), &[3, 1]),
        Some(vec![Effect::Caret(3)])
    );
    assert_eq!(GitNavPlugin::run_command("git.nextHunk", None, &[]), Some(vec![]));
    assert_eq!(GitNavPlugin::run_command("git.blame", Some(&d), &[1]), None);
}

fn loc(path: &str, line: u32, ch: u32) -> Location {
    Location { path: path.into(), line, character: ch }
}

#[test]
fn goto_jumps_to_the_target() {
    assert_eq!(
        LspNavPlugin::on_goto(&loc("/a.rs", 3, 2)),
        vec![Effect::OpenLocation(loc("/a.rs", 3, 2))]
    );
}

#[test]
fn locations_open_a_picker_then_activation_jumps() {
    let mut plugin = LspNavPlugin::new();
    let items = vec![
        NavItem { location: loc("/a.rs", 1, 0), label: "a.rs:2:1".into() },
        NavItem { location: loc("/b.rs", 5, 4), label: "b.rs:6:5".into() },
    ];
    let out = plugin.on_locations("References", &items);
    let req = match &out[..] {
        [Effect::OpenPicker(r)] => r,
        other => panic!("picker opened, not {other:?}"),
    };
    assert_eq!(req.owner, "lsp-nav");
    assert_eq!(req.title, "References");
    assert_eq!(req.items.len(), 2);
    assert_eq!(req.items[1].label, "b.rs:6:5");
    // Activating the second row jumps to its location.
    assert_eq!(
        plugin.on_picker_activate("1"),
        vec![Effect::OpenLocation(loc("/b.rs", 5, 4))]
    );
}

#[test]
fn empty_locations_notify_and_open_no_picker() {
    let out = LspNavPlugin::new().on_locations("Symbols", &[]);
    assert!(!out.iter().any(|e| matches!(e, Effect::OpenPicker(_))));
    assert_eq!(out, vec![Effect::Notify("No Symbols".to_string())]);
}

#[test]
fn out_of_range_or_nonnumeric_activation_is_ignored() {
    let plugin = LspNavPlugin::new();
    let mut opened = plugin.on_picker_activate("7"); // nothing stored yet
    opened.extend(plugin.on_picker_activate("notanumber"));
    assert!(opened.is_empty());
}

fn span(e: &Effect) -> (usize, usize) {
    match e {
        Effect::Select { anchor, head } | Effect::AddSelection { anchor, head } => {
            (*anchor, *head)
        }
        other => panic!("{other:?}"),
    }
}

#[test]
fn add_next_match_selects_word_then_next_occurrence() {
    // Bare caret in "foo": first press selects the word.
    let mut d = doc("foo foo foo", 1, 1);
    let s = MultiCursorPlugin::add_next_match(&d, &[Selection { anchor: 1, head: 1 }], (0, 3))
        .unwrap();
    assert!(matches!(s, Effect::Select { .. }), "one selection: {s:?}");
    assert_eq!(span(&s), (0, 3));
    d.anchor = 0;
    d.head = 3;
    // Second press adds the next "foo" and makes it primary.
    let s = MultiCursorPlugin::add_next_match(&d, &[Selection { anchor: 0, head: 3 }], (0, 3))
        .unwrap();
    assert!(matches!(s, Effect::AddSelection { .. }), "two selections: {s:?}");
    assert_eq!(span(&s), (4, 7));
}

#[test]
fn select_all_matches_covers_every_occurrence() {
    let d = doc("x x x x", 0, 1);
    match MultiCursorPlugin::select_all_matches(&d, (0, 1)).unwrap() {
        Effect::SelectRanges { ranges, near } => {
            assert_eq!(ranges.len(), 4);
            assert_eq!(near, 0);
        }
        other => panic!("{other:?}"),
    }
}

#[test]
fn add_below_adds_caret_on_next_line() {
    let d = doc("abc\ndef\nghi", 1, 1); // line 0, col 1
    let b = MultiCursorPlugin::beside("cursor.addBelow", &d).unwrap();
    assert_eq!((b.from, b.column, b.line), (0, 1, 1));
    let sels = [Selection { anchor: 1, head: 1 }];
    let s = MultiCursorPlugin::run_command("cursor.addBelow", Some(&d), &sels, (0, 3), 1).unwrap();
    assert_eq!(s.len(), 1);
    // second caret sits at col 1 of line 1 => char offset 5
    assert_eq!(s[0], Effect::AddSelection { anchor: 5, head: 5 });
}

#[test]
fn there_is_no_caret_above_the_first_line() {
    let d = doc("abc\ndef", 1, 1);
    assert_eq!(MultiCursorPlugin::beside("cursor.addAbove", &d), None);
    assert_eq!(
        MultiCursorPlugin::run_command("cursor.addAbove", Some(&d), &[], (0, 3), 0),
        Some(vec![])
    );
    assert_eq!(MultiCursorPlugin::run_command("cursor.undo", Some(&d), &[], (0, 3), 0), None);
}

#[test]
fn occurrences_are_found_round_the_end() {
    let chars: Vec<char> = "abcab".chars().collect();
    let ab: Vec<char> = "ab".chars().collect();
    assert_eq!(find_next_occurrence(&chars, &ab, 1), Some((3, 5)));
    assert_eq!(find_next_occurrence(&chars, &ab, 4), Some((0, 2)));
    assert_eq!(find_next_occurrence(&chars, &[], 0), None);
    assert_eq!(find_next_occurrence(&ab, &chars, 0), None);
    let x: Vec<char> = "x".chars().collect();
    assert_eq!(find_next_occurrence(&chars, &x, 0), None);
    let foos: Vec<char> = "foo foo foo".chars().collect();
    let foo: Vec<char> = "foo".chars().collect();
    assert_eq!(find_next_occurrence(&foos, &foo, 11), Some((0, 3)));
    assert_eq!(find_next_occurrence(&foos, &foo, usize::MAX), Some((0, 3)));
}

#[test]
fn a_selected_occurrence_is_not_added_again() {
    let d = doc("foo bar", 0, 3);
    let sels = [Selection { anchor: 0, head: 3 }];
    assert_eq!(MultiCursorPlugin::add_next_match(&d, &sels, (0, 3)), None);
}

#[test]
fn occurrences_do_not_overlap() {
    let d = doc("aaaa a", 0, 2);
    assert_eq!(
        MultiCursorPlugin::select_all_matches(&d, (0, 4)),
        Some(Effect::SelectRanges { ranges: vec![(0, 2), (2, 4)], near: 0 })
    );
}
