use editor_builtins::effect::Effect;
use editor_builtins::explorer::model::{dir_marker, file_glyph, push_dir, Child, Listing};
use editor_builtins::explorer::plugin::{ExplorerPlugin, FileOp};
use editor_builtins::key::{Key, KeyCode};

/// Regression: a directory shows exactly one folder glyph (it used to render two side by
/// side), always led by an expand chevron.
#[test]
fn directory_marker_has_a_single_folder_icon() {
    let is_folder = |c: char| matches!(c, '\u{f07b}' | '\u{f07c}' | '\u{e5fe}' | '\u{e5ff}');
    for expanded in [true, false] {
        let m = dir_marker(expanded, true);
        let folders = m.chars().filter(|&c| is_folder(c)).count();
        assert_eq!(
            folders, 1,
            "expanded={expanded}: expected one folder glyph in {m:?}"
        );
        assert!(
            m.starts_with('▾') || m.starts_with('▸'),
            "icon marker should start with an expand chevron: {m:?}"
        );
    }
    // Open vs closed folder is distinguished by the glyph.
    assert!(dir_marker(true, true).contains('\u{f07c}')); // open
    assert!(dir_marker(false, true).contains('\u{f07b}')); // closed
    // Non-icon mode is the chevron alone.
    assert_eq!(dir_marker(true, false), "▾ ");
    assert_eq!(dir_marker(false, false), "▸ ");
}

fn child(path: &str, is_dir: bool) -> Child {
    Child { path: path.into(), is_dir }
}

fn tree() -> Vec<Listing> {
    vec![
        Listing::new(
            "/r".into(),
            vec![child("/r/b.txt", false), child("/r/src", true), child("/r/A.txt", false)],
        ),
        Listing::new("/r/src".into(), vec![child("/r/src/main.rs", false)]),
    ]
}

fn paths(p: &ExplorerPlugin) -> Vec<&str> {
    p.visible.iter().map(|r| r.path.as_str()).collect()
}

fn dirs(p: &ExplorerPlugin) -> Vec<String> {
    let mut v = p.open_dirs();
    v.sort();
    v
}

fn opened() -> ExplorerPlugin {
    let mut p = ExplorerPlugin::new(false);
    p.activate("/r");
    let _ = p.relist(&tree(), None);
    p
}

#[test]
fn directories_come_first_and_names_are_sorted() {
    let p = opened();
    assert_eq!(paths(&p), ["/r/src", "/r/A.txt", "/r/b.txt"]);
    let mut rows = Vec::new();
    push_dir(&tree(), &vec!["/r/src".into()], "/r", 0, &mut rows);
    let all: Vec<(&str, usize)> = rows.iter().map(|r| (r.path.as_str(), r.depth)).collect();
    assert_eq!(
        all,
        [("/r/src", 0), ("/r/src/main.rs", 1), ("/r/A.txt", 0), ("/r/b.txt", 0)]
    );
}

#[test]
fn toggling_a_directory_twice_closes_it_again() {
    let mut p = opened();
    let o = p.run_command("explorer.activate", None);
    assert!(o.claimed && o.relist);
    assert_eq!(dirs(&p), ["/r", "/r/src"]);
    let _ = p.relist(&tree(), None);
    assert_eq!(p.visible.len(), 4);
    let _ = p.run_command("explorer.activate", None);
    assert_eq!(dirs(&p), ["/r"]);
}

#[test]
fn activating_a_file_opens_it() {
    let mut p = opened();
    let _ = p.run_command("explorer.down", None);
    let o = p.run_command("explorer.activate", None);
    assert!(o.effects.contains(&Effect::OpenPath("/r/A.txt".into())), "{:?}", o.effects);
}

#[test]
fn unknown_commands_are_not_claimed() {
    let mut p = opened();
    assert!(!p.run_command("search.find", None).claimed);
}

#[test]
fn revealing_a_file_opens_the_directories_above_it() {
    let mut p = opened();
    let o = p.run_command("explorer.revealActiveFile", Some("/r/src/main.rs"));
    assert!(o.relist);
    assert_eq!(o.select.as_deref(), Some("/r/src/main.rs"));
    assert_eq!(dirs(&p), ["/r", "/r/src"]);
    let _ = p.relist(&tree(), o.select.as_deref());
    assert_eq!(p.visible[p.selected].path, "/r/src/main.rs");
}

fn type_text(p: &mut ExplorerPlugin, text: &str) {
    for c in text.chars() {
        assert!(p.on_prompt_key("explorer.fileop", Key::plain(KeyCode::Char(c))).claimed);
    }
}

#[test]
fn a_new_file_goes_into_the_selected_directory() {
    let mut p = opened();
    let o = p.run_command("explorer.newFile", None);
    assert!(o.claimed);
    type_text(&mut p, "x.rs");
    let o = p.on_prompt_key("explorer.fileop", Key::plain(KeyCode::Enter));
    assert_eq!(o.perform, Some(FileOp::CreateFile("/r/src/x.rs".into())));
    let o = p.finish(None);
    assert!(o.relist);
    assert!(p.pending.is_none());
}

#[test]
fn names_with_separators_and_empty_names_are_refused() {
    let mut p = opened();
    let _ = p.run_command("explorer.newFolder", None);
    let o = p.on_prompt_key("explorer.fileop", Key::plain(KeyCode::Enter));
    assert_eq!(o.perform, None);
    match &o.effects[..] {
        [Effect::SetPrompt(prompt)] => {
            assert_eq!(prompt.error.as_deref(), Some("Give it a name"))
        }
        other => panic!("{other:?}"),
    }
    type_text(&mut p, "a/b");
    let o = p.on_prompt_key("explorer.fileop", Key::plain(KeyCode::Enter));
    assert_eq!(o.perform, None);
    match &o.effects[..] {
        [Effect::SetPrompt(prompt)] => assert_eq!(
            prompt.error.as_deref(),
            Some("Names cannot contain a path separator")
        ),
        other => panic!("{other:?}"),
    }
}

#[test]
fn deleting_needs_the_name_typed() {
    let mut p = opened();
    let _ = p.run_command("explorer.down", None);
    let _ = p.run_command("explorer.delete", None);
    type_text(&mut p, "A.tx");
    let o = p.on_prompt_key("explorer.fileop", Key::plain(KeyCode::Enter));
    assert_eq!(o.perform, None);
    type_text(&mut p, "t");
    let o = p.on_prompt_key("explorer.fileop", Key::plain(KeyCode::Enter));
    assert_eq!(o.perform, Some(FileOp::Delete("/r/A.txt".into())));
}

#[test]
fn renaming_stays_in_the_directory() {
    let mut p = opened();
    let _ = p.run_command("explorer.down", None);
    let _ = p.run_command("explorer.rename", None);
    for _ in 0.."A.txt".len() {
        let _ = p.on_prompt_key("explorer.fileop", Key::plain(KeyCode::Backspace));
    }
    type_text(&mut p, "z.txt");
    let o = p.on_prompt_key("explorer.fileop", Key::plain(KeyCode::Enter));
    assert_eq!(
        o.perform,
        Some(FileOp::Rename { from: "/r/A.txt".into(), to: "/r/z.txt".into() })
    );
}

#[test]
fn a_failed_operation_keeps_the_prompt_and_says_why() {
    let mut p = opened();
    let _ = p.run_command("explorer.newFile", None);
    type_text(&mut p, "x");
    let _ = p.on_prompt_key("explorer.fileop", Key::plain(KeyCode::Enter));
    let o = p.finish(Some("it exists".into()));
    assert!(!o.relist);
    assert!(p.pending.is_some());
    assert!(o.effects.iter().any(|e| matches!(e, Effect::SetPrompt(q) if q.error.is_some())));
}

#[test]
fn files_have_symbols_by_extension() {
    assert_ne!(file_glyph("/r/a.rs"), file_glyph("/r/a.unknown"));
}

#[test]
fn expanding_an_open_directory_and_collapsing_a_shut_one_change_nothing() {
    let mut p = opened();
    let o = p.run_command("explorer.collapse", None);
    assert!(o.claimed && !o.relist);
    assert_eq!(dirs(&p), ["/r"]);
    assert!(p.run_command("explorer.expand", None).relist);
    let _ = p.relist(&tree(), None);
    let o = p.run_command("explorer.expand", None);
    assert!(o.claimed && !o.relist);
    assert_eq!(dirs(&p), ["/r", "/r/src"]);
}

#[test]
fn a_directory_is_the_same_however_it_is_written() {
    let listings = vec![
        Listing::new("/r/".into(), vec![child("/r//src", true), child("/r/a", false)]),
        Listing::new("/r/./src".into(), vec![child("/r/src/main.rs", false)]),
    ];
    let mut rows = Vec::new();
    push_dir(&listings, &vec!["/r/src/".into()], "/r", 3, &mut rows);
    let all: Vec<(&str, usize, bool)> =
        rows.iter().map(|r| (r.path.as_str(), r.depth, r.expanded)).collect();
    assert_eq!(
        all,
        [("/r//src", 3, true), ("/r/src/main.rs", 4, false), ("/r/a", 3, false)]
    );

    let mut p = ExplorerPlugin::new(false);
    p.activate("/r");
    let _ = p.relist(&listings, Some("/r/./a"));
    assert_eq!(p.selected, 1);
}
