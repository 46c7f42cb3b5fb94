use editor_builtins::code_action::{CodeAction, CodeActionPlugin};
use editor_builtins::code_lens::{CodeLens, CodeLensPlugin};
use editor_builtins::contribution::CommandInfo;
use editor_builtins::doc::{Doc, Line};
use editor_builtins::document_highlight::{DocumentHighlightPlugin, Highlight};
use editor_builtins::effect::Effect;
use editor_builtins::folding::{FoldingPlugin, FoldingRange};
use editor_builtins::hover::HoverPlugin;
use editor_builtins::inlay_hints::{self, InlayHint, InlayHintsPlugin};
use editor_builtins::key::{Key, KeyCode};
use editor_builtins::lsp::LspPlugin;
use editor_builtins::palette::PalettePlugin;
use editor_builtins::protocol::{FileEdit, Request, ServerCommand, TextEdit, WorkspaceEdit};
use editor_builtins::rename::RenamePlugin;
use editor_builtins::semantic_tokens::{scope_for, SemanticToken, SemanticTokensPlugin};
use editor_builtins::signature_help::SignatureHelpPlugin;
use editor_builtins::theme::ThemePlugin;

fn doc(text: &str, head: usize) -> Doc {
    let chars: Vec<char> = text.chars().collect();
    let mut lines = Vec::new();
    let mut start = 0;
    for (i, c) in chars.iter().enumerate() {
        if *c == '\n' {
            lines.push(Line { start, len: i - start });
            start = i + 1;
        }
    }
    lines.push(Line { start, len: chars.len() - start });
    Doc { chars, lines, anchor: head, head, tab_width: 4, scroll_line: 0, revision: 0 }
}

#[test]
fn maps_kind_to_scope() {
    assert_eq!(inlay_hints::scope_for(1), "lsp.inlay.type");
    assert_eq!(inlay_hints::scope_for(2), "lsp.inlay.param");
    assert_eq!(inlay_hints::scope_for(0), "lsp.inlay.type");
}

#[test]
fn maps_types_to_syntax_scopes() {
    assert_eq!(scope_for("function", &[]), "function");
    assert_eq!(scope_for("struct", &[]), "type");
    assert_eq!(scope_for("macro", &[]), "function.macro");
    assert_eq!(scope_for("regexp", &[]), "string.special");
}

#[test]
fn unknown_type_is_unpainted() {
    assert_eq!(scope_for("weird", &[]), "");
}

#[test]
fn modifiers_refine_the_scope() {
    // readonly variable → constant; + defaultLibrary → constant.builtin.
    assert_eq!(scope_for("variable", &["readonly".into()]), "constant");
    assert_eq!(
        scope_for("variable", &["readonly".into(), "defaultLibrary".into()]),
        "constant.builtin"
    );
    // A plain defaultLibrary variable → variable.builtin (a real palette entry).
    assert_eq!(
        scope_for("variable", &["defaultLibrary".into()]),
        "variable.builtin"
    );
}

#[test]
fn tokens_are_painted_where_they_are() {
    let token = |ty: &str, start: u32| SemanticToken {
        line: 1,
        start_char16: start,
        length: 3,
        token_type: ty.into(),
        modifiers: vec![],
    };
    let tokens = [token("struct", 4), token("weird", 9)];
    assert_eq!(SemanticTokensPlugin::positions(&tokens), vec![(1, 4), (1, 7)]);
    match &SemanticTokensPlugin::publish(&tokens, &[14, 17])[..] {
        [Effect::SetDecorations { layer, set }] => {
            assert_eq!(layer, "lsp.semantic");
            assert_eq!(set.spans.len(), 1);
            assert_eq!((set.spans[0].start, set.spans[0].end), (14, 17));
            assert_eq!(set.spans[0].style, "type");
        }
        other => panic!("{other:?}"),
    }
}

#[test]
fn hints_are_drawn_where_they_are() {
    let hint = |label: &str| InlayHint {
        line: 0,
        char16: 5,
        label: label.into(),
        kind: 2,
        pad_left: false,
        pad_right: true,
    };
    let hints = [hint(""), hint("x:")];
    assert_eq!(InlayHintsPlugin::positions(&hints), vec![(0, 5)]);
    match &InlayHintsPlugin::publish(&hints, &[5])[..] {
        [Effect::SetDecorations { set, .. }] => {
            assert_eq!(set.virtual_text[0].text, "x:");
            assert_eq!(set.virtual_text[0].style, "lsp.inlay.param");
            assert!(set.virtual_text[0].pad_right);
        }
        other => panic!("{other:?}"),
    }
}

#[test]
fn lenses_highlights_and_folds_are_published() {
    let lenses = [CodeLens { line: 2, char16: 0, title: "3 refs".into() }];
    assert_eq!(CodeLensPlugin::positions(&lenses).len(), 1);
    assert!(matches!(&CodeLensPlugin::publish(&lenses, &[8])[..], [Effect::SetDecorations { .. }]));
    assert!(matches!(&CodeLensPlugin::publish(&[], &[])[..], [Effect::ClearDecorations(_)]));
    let hls = [Highlight { line: 0, start_char16: 1, end_line: 0, end_char16: 4, kind: 3 }];
    assert_eq!(DocumentHighlightPlugin::positions(&hls), vec![(0, 1), (0, 4)]);
    match &DocumentHighlightPlugin::publish(&hls, &[1, 4])[..] {
        [Effect::SetDecorations { set, .. }] => {
            assert_eq!((set.spans[0].start, set.spans[0].end), (1, 4))
        }
        other => panic!("{other:?}"),
    }
    let folds = [FoldingRange { start_line: 3, end_line: 9 }];
    match &FoldingPlugin::publish(&folds)[..] {
        [Effect::SetDecorations { layer, set }] => {
            assert_eq!(layer, "lsp.fold");
            assert_eq!(set.gutter[0].line, 3);
        }
        other => panic!("{other:?}"),
    }
    assert_eq!(FoldingPlugin::publish(&[]), vec![Effect::ClearDecorations("lsp.fold".into())]);
}

fn an_edit() -> WorkspaceEdit {
    WorkspaceEdit {
        changes: vec![FileEdit {
            path: "/a.rs".into(),
            edits: vec![TextEdit {
                start_line: 0,
                start_char16: 0,
                end_line: 0,
                end_char16: 1,
                new_text: "x".into(),
            }],
        }],
    }
}

#[test]
fn answers_are_passed_on() {
    assert_eq!(HoverPlugin::on_hover("fn f()"), vec![Effect::ShowInfo("fn f()".into())]);
    assert_eq!(
        RenamePlugin::on_workspace_edit(&an_edit()),
        vec![Effect::ApplyWorkspaceEdit(an_edit())]
    );
    assert_eq!(ThemePlugin::run_command("view.toggleTheme"), Some(vec![Effect::ToggleTheme]));
    assert_eq!(ThemePlugin::run_command("view.quickOpen"), None);
}

#[test]
fn choosing_an_action_performs_it() {
    let mut p = CodeActionPlugin::new();
    assert_eq!(
        p.run_command("lsp.codeAction", true),
        Some(vec![Effect::Ask(Request::CodeAction)])
    );
    let actions = vec![CodeAction {
        title: "Fix".into(),
        edit: an_edit(),
        command: Some(ServerCommand { command: "c".into(), arguments: "[1]".into() }),
    }];
    let out = p.on_actions(actions);
    let token = match &out[..] {
        [Effect::OpenPicker(r)] => {
            assert_eq!(r.items[0].label, "Fix");
            r.token.clone()
        }
        other => panic!("{other:?}"),
    };
    let out = p.on_picker_activate(&token, "0");
    assert_eq!(
        out,
        vec![
            Effect::ApplyWorkspaceEdit(an_edit()),
            Effect::Ask(Request::ExecuteCommand(ServerCommand {
                command: "c".into(),
                arguments: "[1]".into()
            })),
        ]
    );
    assert!(p.on_picker_activate(&token, "1").is_empty());
}

#[test]
fn requests_go_to_the_server_where_there_is_one() {
    let mut p = LspPlugin::new();
    let d = doc("let name", 5);
    let run = |p: &mut LspPlugin, c: &str, on: bool| p.run_command(c, on, Some(&d), (4, 8));
    assert_eq!(
        run(&mut p, "lsp.gotoDefinition", true),
        Some(vec![Effect::Ask(Request::Definition)])
    );
    assert_eq!(run(&mut p, "lsp.gotoDefinition", false), Some(vec![]));
    assert_eq!(run(&mut p, "lsp.completion", true), None);
}

#[test]
fn a_symbol_is_renamed_by_prompt() {
    let mut p = LspPlugin::new();
    let d = doc("let name", 5);
    match &p.run_command("lsp.rename", true, Some(&d), (4, 8)).unwrap()[..] {
        [Effect::SetPrompt(q)] => assert_eq!(q.fields[0].value, "name"),
        other => panic!("{other:?}"),
    }
    let _ = p.on_prompt_key("lsp.rename", Key::plain(KeyCode::Backspace));
    let _ = p.on_prompt_key("lsp.rename", Key::plain(KeyCode::Char('é')));
    assert_eq!(
        p.on_prompt_key("lsp.rename", Key::plain(KeyCode::Enter)),
        Some(vec![Effect::DismissPrompt, Effect::Ask(Request::Rename("namé".into()))])
    );
    assert_eq!(p.on_prompt_key("gotoLine", Key::plain(KeyCode::Enter)), None);
}

#[test]
fn a_signature_is_shown_until_the_document_is_left() {
    let mut p = SignatureHelpPlugin::new();
    let out = p.on_signature(Some("f(a, b)"));
    assert!(p.open);
    assert!(!out.is_empty());
    let _ = p.on_leave();
    assert!(!p.open);
    let d = doc("f(", 2);
    assert_eq!(p.on_change(Some(&d), true), vec![Effect::Ask(Request::SignatureHelp)]);
}

#[test]
fn the_palette_lists_files_and_commands() {
    let mut p = PalettePlugin::new();
    let files = ["/r/src/a.rs".to_string()];
    let commands = [CommandInfo { id: "lsp.hover".into(), title: "Go: Show Hover".into() }];
    match &p.run_command("view.commandPalette", "/r", &files, &commands).unwrap()[..] {
        [Effect::OpenPicker(r)] => {
            assert!(r.start_in_commands);
            assert_eq!(r.items[0].id, "/r/src/a.rs");
            assert_eq!(r.items[0].label, "src/a.rs");
            assert_eq!(r.commands[0].label, "Go: Show Hover");
        }
        other => panic!("{other:?}"),
    }
    assert_eq!(
        p.on_picker_activate("lsp.hover", &commands),
        vec![Effect::Execute("lsp.hover".into())]
    );
    assert_eq!(
        p.on_picker_activate("/r/src/a.rs", &commands),
        vec![Effect::OpenPath("/r/src/a.rs".into())]
    );
}

#[test]
fn a_line_number_moves_the_caret_within_the_document() {
    let mut p = PalettePlugin::new();
    let d = doc("a\nbb\nccc", 0);
    let mut go = |digits: &str| {
        let _ = p.run_command("view.gotoLine", "/r", &[], &[]);
        for c in digits.chars() {
            let _ = p.on_prompt_key("gotoLine", Key::plain(KeyCode::Char(c)), Some(&d));
        }
        p.on_prompt_key("gotoLine", Key::plain(KeyCode::Enter), Some(&d)).unwrap()
    };
    assert_eq!(go("2"), vec![Effect::DismissPrompt, Effect::Caret(2)]);
    assert_eq!(go("99"), vec![Effect::DismissPrompt, Effect::Caret(5)]);
    assert_eq!(go("0"), vec![Effect::DismissPrompt, Effect::Caret(0)]);
    assert_eq!(go("x"), vec![Effect::DismissPrompt]);
}
