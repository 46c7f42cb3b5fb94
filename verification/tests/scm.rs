use editor_builtins::effect::Effect;
use editor_builtins::key::{Key, KeyCode};
use editor_builtins::scm::plugin::{ScmPlugin, ENTRY_CAP};
use editor_builtins::scm::status::{parse_status, StatusReader};

#[test]
fn parses_branch_and_entries() {
    // `-z` records are NUL-terminated, so paths are literal — no quoting to undo.
    let out = b"## main...origin/main [ahead 1]\0 M src/a.rs\0?? new.txt\0M  staged.rs\0";
    let (branch, entries) = parse_status(out);
    assert_eq!(branch.as_deref(), Some("main"));
    assert_eq!(entries.len(), 3);
    assert_eq!(entries[0].path, "src/a.rs");
    assert_eq!((entries[0].index, entries[0].worktree), (' ', 'M'));
    assert!(!entries[0].is_staged());
    assert_eq!(entries[1].label(), "untracked");
    assert!(entries[2].is_staged());
}

#[test]
fn a_path_with_a_space_survives() {
    let out = b"## main\0 M my file.txt\0";
    let (_, entries) = parse_status(out);
    assert_eq!(entries.len(), 1);
    assert_eq!(entries[0].path, "my file.txt");
}

/// A rename reports the destination and then the origin as a separate record. The origin must
/// not be mistaken for another changed file.
#[test]
fn a_rename_consumes_its_origin_record() {
    let out = b"## main\0R  new/name.rs\0old/name.rs\0 M other.rs\0";
    let (_, entries) = parse_status(out);
    assert_eq!(entries.len(), 2, "the origin path is not a second entry");
    assert_eq!(entries[0].path, "new/name.rs");
    assert_eq!(entries[1].path, "other.rs");
}

#[test]
fn empty_output_is_no_branch_and_no_entries() {
    let (branch, entries) = parse_status(b"");
    assert!(
        branch.is_none(),
        "no branch means 'not a repo', not 'clean'"
    );
    assert!(entries.is_empty());
}

#[test]
fn a_detached_head_still_reports_something() {
    let out = b"## HEAD (no branch)\0";
    let (branch, _) = parse_status(out);
    assert_eq!(branch.as_deref(), Some("HEAD"));
}

#[test]
fn bytes_that_are_no_text_are_shown_replaced() {
    let (_, entries) = parse_status(b"## main\0 M caf\xe9\0");
    assert_eq!(entries[0].path, "caf\u{fffd}");
}

#[test]
fn showing_asks_for_the_status_and_shows_the_answer() {
    let mut p = ScmPlugin::new();
    let out = p.run_command("scm.show").unwrap();
    assert!(out.iter().any(|e| matches!(e, Effect::Git { job, args } if job == "scm-status:1" && args.is_empty())),
        "{out:?}");
    let out = p.on_job("scm-status:1", b"## main\0 M a.rs\0");
    assert_eq!(p.branch.as_deref(), Some("main"));
    assert!(out.iter().any(|e| matches!(e, Effect::SetPanel { panel, .. } if panel == "scm.changes")));
    assert!(p.on_job("scm-status:7", b"## other\0").is_empty());
    assert_eq!(p.branch.as_deref(), Some("main"));
    assert_eq!(p.run_command("git.nextHunk"), None);
}

#[test]
fn staging_names_the_selected_file() {
    let mut p = ScmPlugin::new();
    let _ = p.run_command("scm.show");
    let _ = p.on_job("scm-status:1", b"## main\0 M a.rs\0 M b.rs\0");
    let _ = p.run_command("scm.next");
    let out = p.run_command("scm.stage").unwrap();
    assert!(out.iter().any(|e| matches!(e, Effect::Git { args, .. }
        if args.last().map(String::as_str) == Some("b.rs") && args[0] == "add")), "{out:?}");
}

#[test]
fn a_commit_needs_staged_files_and_a_message() {
    let mut p = ScmPlugin::new();
    let _ = p.run_command("scm.show");
    let _ = p.on_job("scm-status:1", b"## main\0 M a.rs\0");
    let out = p.run_command("scm.commit").unwrap();
    assert!(out.iter().all(|e| !matches!(e, Effect::SetPrompt(_))), "{out:?}");
    let _ = p.run_command("scm.refresh");
    let _ = p.on_job("scm-status:2", b"## main\0M  a.rs\0");
    let out = p.run_command("scm.commit").unwrap();
    assert!(out.iter().any(|e| matches!(e, Effect::SetPrompt(_))), "{out:?}");
    let out = p.on_prompt_key("scm.commit", Key::plain(KeyCode::Enter)).unwrap();
    assert!(out.iter().all(|e| !matches!(e, Effect::Git { .. })), "{out:?}");
    for c in "fix".chars() {
        let _ = p.on_prompt_key("scm.commit", Key::plain(KeyCode::Char(c)));
    }
    let out = p.on_prompt_key("scm.commit", Key::plain(KeyCode::Enter)).unwrap();
    assert!(out.iter().any(|e| matches!(e, Effect::Git { args, .. }
        if args.iter().any(|a| a == "fix"))), "{out:?}");
}

#[test]
fn the_list_is_capped() {
    let mut p = ScmPlugin::new();
    let _ = p.run_command("scm.show");
    let mut out = b"## main\0".to_vec();
    for i in 0..ENTRY_CAP + 20 {
        out.extend_from_slice(format!(" M f{i}\0").as_bytes());
    }
    let shown = p.on_job("scm-status:1", &out);
    let rows = shown
        .iter()
        .find_map(|e| match e {
            Effect::SetPanel { content, .. } => Some(content.lines.len()),
            _ => None,
        })
        .unwrap();
    assert!((ENTRY_CAP..ENTRY_CAP + 4).contains(&rows), "{rows}");
}

#[test]
fn records_are_taken_in_one_by_one() {
    let mut r = StatusReader::new();
    r.take_record("## main...origin/main [ahead 1]");
    assert_eq!(r.branch.as_deref(), Some("main"));
    r.take_record("R  new name.rs");
    assert!(r.renamed);
    r.take_record("old name.rs");
    assert!(!r.renamed);
    r.take_record("?");
    r.take_record("é M x");
    assert_eq!(r.entries.len(), 2);
    assert_eq!((r.entries[0].index, r.entries[0].path.as_str()), ('R', "new name.rs"));
    assert_eq!((r.entries[1].index, r.entries[1].path.as_str()), ('é', "M x"));
}
