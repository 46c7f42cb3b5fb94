use editor_builtins::doc::{Doc, Line};
use editor_builtins::effect::{Change, Effect};
use editor_builtins::find::plugin::FindReplacePlugin;
use editor_builtins::find::state::{Field, FindState, MAX_MATCHES};
use editor_builtins::key::{Key, KeyCode};

#[test]
fn find_literal_matches() {
    let mut f = FindState::new(false);
    f.query = "lo".into();
    f.recompute("hello world lo", 0);
    assert_eq!(f.matches, vec![(3, 5), (12, 14)]);
}

#[test]
fn find_case_and_word_toggles() {
    let mut f = FindState::new(false);
    f.query = "the".into();
    f.recompute("The theme is theirs", 0);
    assert_eq!(f.matches.len(), 3); // case-insensitive by default
    f.case_sensitive = true;
    f.recompute("The theme is theirs", 0);
    assert_eq!(f.matches.len(), 2); // "The" excluded
    f.whole_word = true;
    f.recompute("The theme is theirs the", 0);
    assert_eq!(f.matches.len(), 1); // only standalone "the"
}

#[test]
fn find_regex_capture_replacement() {
    let mut f = FindState::new(true);
    f.regex = true;
    f.query = r"(\w+)@(\w+)".into();
    f.replace = "$2.$1".into();
    assert_eq!(f.replacement_for("user@host"), "host.user");
}

#[test]
fn find_replacement_with_prebuilt_regex_matches_replacement_for() {
    // Replace All compiles the regex once and reuses it; the result must equal the per-call
    // path. Also covers the non-regex short-circuit and the `None` (no regex) branch.
    let mut f = FindState::new(true);
    f.regex = true;
    f.query = r"(\w+)@(\w+)".into();
    f.replace = "$2.$1".into();
    let re = f.compiled();
    assert_eq!(f.replacement_with(re.as_ref(), "user@host"), "host.user");
    // A None regex in regex mode falls back to the literal replacement.
    assert_eq!(f.replacement_with(None, "user@host"), "$2.$1");
    // Outside regex mode the replacement is verbatim regardless of the passed regex.
    f.regex = false;
    f.replace = "PLAIN".into();
    assert_eq!(
        f.replacement_with(f.compiled().as_ref(), "whatever"),
        "PLAIN"
    );
}

#[test]
fn find_cursor_selects_nearest_forward_match() {
    let mut f = FindState::new(false);
    f.query = "x".into();
    f.recompute("x..x..x", 3);
    assert_eq!(f.current_match(), Some((3, 4)));
}

#[test]
fn find_multibyte_offsets_are_char_ranges_not_byte_ranges() {
    // "é" is two bytes; matches must be reported in char offsets. "café" then "café".
    let mut f = FindState::new(false);
    f.query = "café".into();
    f.recompute("café café", 0);
    // char offsets: first "café" = [0,4); space at 4; second "café" = [5,9).
    assert_eq!(f.matches, vec![(0, 4), (5, 9)]);
}

#[test]
fn find_match_count_is_capped() {
    let mut f = FindState::new(false);
    f.regex = true;
    f.query = ".".into(); // matches every char
    let text = "a".repeat(MAX_MATCHES + 500);
    f.recompute(&text, 0);
    assert_eq!(f.matches.len(), MAX_MATCHES);
}

#[test]
fn find_to_prompt_mirrors_state_and_count() {
    let mut f = FindState::new(true);
    f.query = "x".into();
    f.regex = true;
    f.recompute("x x x", 0);
    let p = f.to_prompt();
    assert_eq!(p.owner, "find");
    assert_eq!(p.fields.len(), 2); // Find + Repl in replace mode
    assert_eq!(p.status.as_deref(), Some("1/3"));
    assert!(p.toggles.iter().any(|t| t.label == ".*" && t.on));
}

#[test]
fn state_literal_matches() {
    let mut f = FindState::new(false);
    f.query = "lo".into();
    f.recompute("hello world lo", 0);
    assert_eq!(f.matches, vec![(3, 5), (12, 14)]);
}

#[test]
fn state_case_and_word_toggles() {
    let mut f = FindState::new(false);
    f.query = "the".into();
    f.recompute("The theme is theirs", 0);
    assert_eq!(f.matches.len(), 3); // case-insensitive by default
    f.case_sensitive = true;
    f.recompute("The theme is theirs", 0);
    assert_eq!(f.matches.len(), 2); // "The" excluded
    f.whole_word = true;
    f.recompute("The theme is theirs the", 0);
    assert_eq!(f.matches.len(), 1); // only standalone "the"
}

#[test]
fn state_regex_capture_replacement() {
    let mut f = FindState::new(true);
    f.regex = true;
    f.query = r"(\w+)@(\w+)".into();
    f.replace = "$2.$1".into();
    assert_eq!(f.replacement_for("user@host"), "host.user");
}

#[test]
fn state_replacement_with_prebuilt_regex_matches_replacement_for() {
    // Replace All compiles the regex once and reuses it; the result must equal the per-call
    // path. Also covers the non-regex short-circuit and the `None` (no regex) branch.
    let mut f = FindState::new(true);
    f.regex = true;
    f.query = r"(\w+)@(\w+)".into();
    f.replace = "$2.$1".into();
    let re = f.compiled();
    assert_eq!(f.replacement_with(re.as_ref(), "user@host"), "host.user");
    // A None regex in regex mode falls back to the literal replacement.
    assert_eq!(f.replacement_with(None, "user@host"), "$2.$1");
    // Outside regex mode the replacement is verbatim regardless of the passed regex.
    f.regex = false;
    f.replace = "PLAIN".into();
    assert_eq!(
        f.replacement_with(f.compiled().as_ref(), "whatever"),
        "PLAIN"
    );
}

#[test]
fn state_cursor_selects_nearest_forward_match() {
    let mut f = FindState::new(false);
    f.query = "x".into();
    f.recompute("x..x..x", 3);
    assert_eq!(f.current_match(), Some((3, 4)));
}

#[test]
fn state_multibyte_offsets_are_char_ranges_not_byte_ranges() {
    // "é" is two bytes; matches must be reported in char offsets. "café" then "café".
    let mut f = FindState::new(false);
    f.query = "café".into();
    f.recompute("café café", 0);
    // char offsets: first "café" = [0,4); space at 4; second "café" = [5,9).
    assert_eq!(f.matches, vec![(0, 4), (5, 9)]);
}

#[test]
fn state_match_count_is_capped() {
    let mut f = FindState::new(false);
    f.regex = true;
    f.query = ".".into(); // matches every char
    let text = "a".repeat(MAX_MATCHES + 500);
    f.recompute(&text, 0);
    assert_eq!(f.matches.len(), MAX_MATCHES);
}

#[test]
fn state_to_prompt_mirrors_state_and_count() {
    let mut f = FindState::new(true);
    f.query = "x".into();
    f.regex = true;
    f.recompute("x x x", 0);
    let p = f.to_prompt();
    assert_eq!(p.owner, "find");
    assert_eq!(p.fields.len(), 2); // Find + Repl in replace mode
    assert_eq!(p.status.as_deref(), Some("1/3"));
    assert!(p.toggles.iter().any(|t| t.label == ".*" && t.on));
}

fn doc(text: &str, head: usize) -> Doc {
    let chars: Vec<char> = text.chars().collect();
    let lines = vec![Line { start: 0, len: chars.len() }];
    Doc { chars, lines, anchor: head, head, tab_width: 4, scroll_line: 0, revision: 0 }
}

#[test]
fn next_and_previous_go_round() {
    let mut f = FindState::new(false);
    f.query = "x".into();
    f.recompute("x x x", 0);
    f.select_prev();
    assert_eq!(f.current, 2);
    f.select_next();
    assert_eq!(f.current, 0);
}

#[test]
fn stepping_starts_from_the_remainder() {
    let mut f = FindState::new(false);
    f.query = "x".into();
    f.recompute("x x x", 0);
    f.current = usize::MAX;
    assert_eq!(f.to_prompt().status.unwrap(), format!("{}/3", usize::MAX as u128 + 1));
    f.select_next();
    assert_eq!(f.current, (usize::MAX % 3 + 1) % 3);
    f.current = usize::MAX;
    f.select_prev();
    assert_eq!(f.current, (usize::MAX % 3 + 2) % 3);
    f.matches.clear();
    f.current = 4;
    f.select_next();
    f.select_prev();
    assert_eq!(f.current, 4);
}

#[test]
fn found_ranges_are_taken_over() {
    let mut f = FindState::new(false);
    f.error = Some("old".into());
    // `é` is stored in two bytes, so the ranges in characters lie one further to the front.
    f.show(&[(0, 0), (2, 3), (4, 6), (6, 6)], "éabcde", 2);
    assert_eq!(f.matches, [(1, 2), (3, 5)]);
    assert_eq!(f.current, 1);
    assert_eq!(f.error, None);
    f.show(&[(0, 2)], "éabcde", 6);
    assert_eq!((f.matches.as_slice(), f.current), ([(0, 1)].as_slice(), 0));
    f.show(&[], "éabcde", 0);
    assert_eq!((f.matches.len(), f.current), (0, 0));
    let many: Vec<(usize, usize)> = (0..MAX_MATCHES + 3).map(|i| (i, i + 1)).collect();
    f.show(&many, &"a".repeat(MAX_MATCHES + 3), 0);
    assert_eq!(f.matches.len(), MAX_MATCHES);
}

#[test]
fn filled_in_references_count_in_expressions_only() {
    let mut f = FindState::new(true);
    f.replace = "$1".into();
    assert_eq!(f.replacement_from(Some("one".into())), "$1");
    f.regex = true;
    assert_eq!(f.replacement_from(Some("one".into())), "one");
    assert_eq!(f.replacement_from(None), "$1");
}

#[test]
fn empty_matches_do_not_count_towards_the_cap() {
    let mut f = FindState::new(false);
    f.regex = true;
    f.query = "a*".into();
    let text = "b".repeat(MAX_MATCHES) + &"ab".repeat(MAX_MATCHES + 10);
    f.recompute(&text, 0);
    assert_eq!(f.matches.len(), MAX_MATCHES);
    assert_eq!(f.matches[0], (MAX_MATCHES, MAX_MATCHES + 1));
    assert_eq!(f.matches[MAX_MATCHES - 1].0, 3 * MAX_MATCHES - 2);
}

#[test]
fn an_invalid_expression_is_reported() {
    let mut f = FindState::new(false);
    f.regex = true;
    f.query = "(".into();
    f.recompute("((", 0);
    assert!(f.matches.is_empty());
    assert!(f.error.is_some());
    assert!(f.compiled().is_none());
    assert!(f.to_prompt().error.is_some());
}

#[test]
fn literal_queries_are_escaped() {
    let mut f = FindState::new(false);
    f.query = "a.b".into();
    f.recompute("axb a.b", 0);
    assert_eq!(f.matches, vec![(4, 7)]);
}

#[test]
fn no_forward_match_makes_the_last_current() {
    let mut f = FindState::new(false);
    f.query = "x".into();
    f.recompute("x..x..x", 7);
    assert_eq!(f.current, 2);
    assert_eq!(f.current_match(), Some((6, 7)));
    f.recompute("...", 1);
    assert_eq!((f.current, f.current_match()), (0, None));
}

#[test]
fn typing_and_erasing_edit_the_field_in_focus() {
    let mut f = FindState::new(true);
    f.input_char('a');
    f.toggle_field();
    assert_eq!(f.field, Field::Replace);
    f.input_char('b');
    assert_eq!((f.query.as_str(), f.replace.as_str()), ("a", "b"));
    f.backspace();
    f.toggle_field();
    f.backspace();
    assert_eq!((f.query.as_str(), f.replace.as_str()), ("", ""));
}

fn press(p: &mut FindReplacePlugin, d: &Doc, code: KeyCode) -> Vec<Effect> {
    let o = p.on_prompt_key("find", Key::plain(code), Some(d));
    assert!(o.claimed);
    o.effects
}

#[test]
fn typing_a_query_selects_the_nearest_match() {
    let d = doc("one two one", 5);
    let mut p = FindReplacePlugin::new();
    let out = p.run_command("search.find", Some(&d));
    assert!(out.claimed);
    let mut last = Vec::new();
    for c in "one".chars() {
        last = press(&mut p, &d, KeyCode::Char(c));
    }
    assert_eq!(p.state.as_ref().unwrap().matches, vec![(0, 3), (8, 11)]);
    assert_eq!(p.state.as_ref().unwrap().current_match(), Some((8, 11)));
    assert!(last.iter().any(|e| matches!(e, Effect::SetPrompt(_))), "{last:?}");
}

#[test]
fn replacing_all_is_one_transaction() {
    let d = doc("a b a", 0);
    let mut p = FindReplacePlugin::new();
    let _ = p.open(true, Some(&d));
    let _ = press(&mut p, &d, KeyCode::Char('a'));
    let _ = press(&mut p, &d, KeyCode::Tab);
    let _ = press(&mut p, &d, KeyCode::Char('X'));
    let o = p.run_command("search.replaceAll", Some(&d));
    assert!(o.claimed);
    assert!(o.effects.contains(&Effect::Apply(vec![
        Change { at: 0, removed: "a".into(), inserted: "X".into() },
        Change { at: 4, removed: "a".into(), inserted: "X".into() },
    ])), "{:?}", o.effects);
}

#[test]
fn escape_closes_the_widget() {
    let d = doc("a", 0);
    let mut p = FindReplacePlugin::new();
    let _ = p.open(false, Some(&d));
    let out = press(&mut p, &d, KeyCode::Esc);
    assert!(p.state.is_none());
    assert!(out.contains(&Effect::DismissPrompt));
}
