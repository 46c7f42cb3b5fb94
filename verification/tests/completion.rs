use editor_builtins::completion::plugin::{is_trigger, CompletionPlugin};
use editor_builtins::completion::state::{
    is_subsequence, kind_label, score, CompletionItem, CompletionState,
};
use editor_builtins::doc::{Doc, Line, Selection};
use editor_builtins::effect::{Change, Effect, SpanEdit};
use editor_builtins::key::{Key, KeyCode};
use editor_builtins::protocol::{Request, ServerCommand};

fn item(label: &str, kind: Option<u8>) -> CompletionItem {
    CompletionItem {
        label: label.to_string(),
        detail: None,
        insert_text: label.to_string(),
        kind,
        additional_edits: Vec::new(),
        is_snippet: false,
        data: None,
        command: None,
    }
}

fn items() -> Vec<CompletionItem> {
    vec![
        item("println", Some(3)),
        item("print", Some(3)),
        item("eprintln", Some(3)),
        item("format", Some(3)),
    ]
}

fn doc(text: &str, head: usize) -> Doc {
    let chars: Vec<char> = text.chars().collect();
    let lines = vec![Line { start: 0, len: chars.len() }];
    Doc { chars, lines, anchor: head, head, tab_width: 4, scroll_line: 0, revision: 0 }
}

#[test]
fn trigger_chars_are_dot_and_double_colon() {
    assert!(is_trigger('.', Some('j'))); // member access
    assert!(is_trigger(':', Some(':'))); // path
    assert!(!is_trigger(':', Some('a'))); // a lone colon is not a trigger
    assert!(!is_trigger('x', Some('.'))); // an identifier char is not
    assert!(is_trigger('.', None)); // a leading '.' still triggers
}

#[test]
fn empty_prefix_matches_all_in_order() {
    let s = CompletionState::new(items(), 0, String::new());
    assert_eq!(s.filtered.len(), 4);
    assert_eq!(s.selected_item().unwrap().label, "println");
}

#[test]
fn prefix_matches_rank_before_subsequence() {
    let s = CompletionState::new(items(), 0, "print".to_string());
    let labels: Vec<&str> = s
        .filtered
        .iter()
        .map(|&i| s.items[i].label.as_str())
        .collect();
    assert_eq!(&labels[..2], &["println", "print"]);
    assert!(labels.contains(&"eprintln"));
    assert!(!labels.contains(&"format"));
}

#[test]
fn refilter_narrows_as_prefix_grows() {
    let mut s = CompletionState::new(items(), 0, "p".to_string());
    let before = s.filtered.len();
    s.prefix = "prin".to_string();
    s.refilter();
    assert!(s.filtered.len() <= before);
    assert!(s
        .filtered
        .iter()
        .all(|&i| s.items[i].label.contains("prin")));
}

#[test]
fn selection_wraps() {
    let mut s = CompletionState::new(items(), 0, String::new());
    s.move_sel(-1);
    assert_eq!(s.selected, 3);
    s.move_sel(1);
    assert_eq!(s.selected, 0);
}

#[test]
fn no_match_is_empty() {
    let s = CompletionState::new(items(), 0, "zzz".to_string());
    assert!(s.is_empty());
}

#[test]
fn scores_rank_beginnings_before_scattered_letters() {
    assert_eq!(score("Print", "pr"), Some(100));
    assert_eq!(score("Éclair", "éc"), Some(100));
    assert_eq!(score("eprintln", "pin"), Some(50));
    assert_eq!(score("format", "zz"), None);
    assert_eq!(score("format", ""), Some(0));
    assert!(is_subsequence("pin", "eprintln"));
    assert!(!is_subsequence("nip", "eprintln"));
}

#[test]
fn kinds_have_labels() {
    assert_eq!(kind_label(Some(3)), "ƒ");
    assert_eq!(kind_label(None), "•");
    assert_eq!(kind_label(Some(200)), "•");
}

#[test]
fn the_popup_opens_at_the_start_of_the_name() {
    let mut p = CompletionPlugin::new();
    let d = doc("x.pri", 5);
    let out = p.open(items(), false, Some(&d));
    let state = p.state.as_ref().unwrap();
    assert_eq!(state.anchor, 2);
    assert_eq!(state.prefix, "pri");
    match &out[..] {
        [Effect::SetPopup(Some(popup))] => {
            assert_eq!(popup.owner, "completion");
            assert_eq!(popup.anchor, 2);
            assert_eq!(popup.rows[0].label, "println");
        }
        other => panic!("{other:?}"),
    }
}

#[test]
fn accepting_replaces_the_typed_name() {
    let mut p = CompletionPlugin::new();
    let d = doc("x.pri", 5);
    let mut it = item("print", Some(3));
    it.command = Some(ServerCommand { command: "c".into(), arguments: "[]".into() });
    let _ = p.open(vec![it], false, Some(&d));
    let sels = [Selection { anchor: 5, head: 5 }];
    let out = p
        .on_popup_key(Key::plain(KeyCode::Enter), Some(&d), &sels, Some("/a.rs"), true)
        .expect("claimed");
    assert!(p.state.is_none());
    assert_eq!(out[0], Effect::SetPopup(None));
    assert_eq!(
        out[1..],
        [
            Effect::EditSelections(vec![SpanEdit { start: 2, end: 5, text: "print".into() }]),
            Effect::Ask(Request::ExecuteCommand(ServerCommand {
                command: "c".into(),
                arguments: "[]".into()
            })),
        ]
    );
}

#[test]
fn escape_takes_the_popup_down() {
    let mut p = CompletionPlugin::new();
    let d = doc("pri", 3);
    let _ = p.open(items(), false, Some(&d));
    let out = p.on_popup_key(Key::plain(KeyCode::Esc), Some(&d), &[], None, true).unwrap();
    assert_eq!(out, vec![Effect::SetPopup(None)]);
    assert!(p.state.is_none());
}

#[test]
fn the_command_asks_the_server() {
    let p = CompletionPlugin::new();
    assert_eq!(
        p.run_command("lsp.completion", true),
        Some(vec![Effect::Ask(Request::Completion)])
    );
    assert_eq!(p.run_command("lsp.hover", true), None);
}

#[test]
fn typing_a_trigger_asks_the_server() {
    let mut p = CompletionPlugin::new();
    let d = doc("x.", 2);
    assert_eq!(p.on_change(Some(&d), true), vec![Effect::Ask(Request::Completion)]);
    assert_eq!(p.on_change(Some(&d), false), vec![]);
}

#[test]
fn a_snippet_selects_its_first_tabstop() {
    let mut p = CompletionPlugin::new();
    let d = doc("pri", 3);
    let mut it = item("print", Some(3));
    it.is_snippet = true;
    it.insert_text = "print(${1:x})$0".into();
    let _ = p.open(vec![it], false, Some(&d));
    let sels = [Selection { anchor: 3, head: 3 }];
    let out = p.on_popup_key(Key::plain(KeyCode::Tab), Some(&d), &sels, None, true).unwrap();
    assert_eq!(
        out[1..],
        [
            Effect::Apply(vec![Change {
                at: 0,
                removed: "pri".into(),
                inserted: "print(x)".into()
            }]),
            Effect::Select { anchor: 6, head: 7 },
        ]
    );
}
