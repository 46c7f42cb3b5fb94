use editor_builtins::builtins::{all_builtins, all_builtins_with, with_plugins, Builtin};
use editor_builtins::contribution::Registry;

const EXPLORER_ID: &str = "explorer";
const EXPLORER_PANEL: &str = "explorer.tree";
const EXPLORER_COMMAND: &str = "explorer.revealActiveFile";
const MULTICURSOR_ID: &str = "multicursor";
const MULTICURSOR_COMMAND: &str = "cursor.addNextMatch";
const FIND_ID: &str = "find";
const FIND_COMMAND: &str = "search.find";
const PALETTE_ID: &str = "palette";
const PALETTE_COMMAND: &str = "view.commandPalette";
const SEARCH_ID: &str = "project-search";
const SEARCH_COMMAND: &str = "search.project";
const SEARCH_PANEL: &str = "search.results";
const LSP_ID: &str = "lsp";
const LSP_COMMAND: &str = "lsp.gotoDefinition";
const TERMINAL_ID: &str = "terminal";
const TERMINAL_COMMAND: &str = "terminal.toggle";
const DIAGNOSTICS_ID: &str = "diagnostics";
const DIAGNOSTICS_COMMAND: &str = "lsp.nextDiagnostic";
const COMPLETION_ID: &str = "completion";
const COMPLETION_COMMAND: &str = "lsp.completion";
const CLIPBOARD_ID: &str = "clipboard";
const CLIPBOARD_COMMAND: &str = "edit.paste";
const VIM_ID: &str = "vim";
const VIM_COMMAND: &str = "vim.toggle";

/// The registry without one of the plugins.
fn without(id: &str) -> Registry {
    let rest: Vec<Builtin> = all_builtins().into_iter().filter(|p| p.id() != id).collect();
    with_plugins(&rest)
}

#[test]
fn builtin_contributes_through_the_public_api() {
    let reg = with_plugins(&all_builtins());
    assert!(
        reg.command_ids().iter().any(|id| id == EXPLORER_COMMAND),
        "explorer command missing — is the explorer actually wired as a plugin?"
    );
    assert!(
        reg.panel_ids().iter().any(|id| id == EXPLORER_PANEL),
        "explorer panel missing — is the explorer actually wired as a plugin?"
    );
}

#[test]
fn disabling_the_explorer_removes_only_its_contributions() {
    let full = with_plugins(&all_builtins());
    let before: Vec<String> = full.command_ids();

    // Disable the explorer exactly the way a user config would: drop it from the plugin set.
    let reduced =
        without(EXPLORER_ID);

    // Its contributions are gone …
    assert!(
        !reduced.command_ids().iter().any(|id| id == EXPLORER_COMMAND),
        "explorer command still present after disabling the plugin — it is hardcoded, not a plugin"
    );
    assert!(
        !reduced.panel_ids().iter().any(|id| id == EXPLORER_PANEL),
        "explorer panel still present after disabling the plugin — it is hardcoded, not a plugin"
    );

    // … and nothing unrelated was disturbed (multicursor's `cursor.*` commands survive).
    for id in before.iter().filter(|id| !id.starts_with("explorer.")) {
        assert!(
            reduced.command_ids().iter().any(|c| c == id),
            "disabling the explorer wrongly removed unrelated command `{id}`"
        );
    }
}

#[test]
fn multicursor_contributes_through_the_public_api() {
    let reg = with_plugins(&all_builtins());
    assert!(
        reg.command_ids().iter().any(|id| id == MULTICURSOR_COMMAND),
        "multi-cursor command missing — is it wired as a plugin (not a hardcoded Command arm)?"
    );
}

#[test]
fn disabling_multicursor_removes_only_its_contributions() {
    let full = with_plugins(&all_builtins());
    let before: Vec<String> = full.command_ids();

    let reduced = without(MULTICURSOR_ID);

    // Its `cursor.*` commands are gone …
    assert!(
        !reduced.command_ids().iter().any(|id| id == MULTICURSOR_COMMAND),
        "multi-cursor command still present after disabling — it is hardcoded, not a plugin"
    );
    // … and the explorer's contributions are untouched.
    for id in before.iter().filter(|id| !id.starts_with("cursor.")) {
        assert!(
            reduced.command_ids().iter().any(|c| c == id),
            "disabling multi-cursor wrongly removed unrelated command `{id}`"
        );
    }
}

#[test]
fn find_contributes_through_the_public_api() {
    let reg = with_plugins(&all_builtins());
    assert!(
        reg.command_ids().iter().any(|id| id == FIND_COMMAND),
        "find command missing — is find/replace wired as a plugin (not app Command arms)?"
    );
}

#[test]
fn disabling_find_removes_only_its_contributions() {
    let full = with_plugins(&all_builtins());
    let before: Vec<String> = full.command_ids();

    let reduced = without(FIND_ID);

    // Its `search.find`/`search.replace`/… commands are gone …
    assert!(
        !reduced.command_ids().iter().any(|id| id == FIND_COMMAND),
        "find command still present after disabling — it is hardcoded, not a plugin"
    );
    // … and nothing unrelated was disturbed (the app's `search.project` isn't a find contribution).
    for id in before.iter().filter(|id| !id.starts_with("search.")) {
        assert!(
            reduced.command_ids().iter().any(|c| c == id),
            "disabling find wrongly removed unrelated command `{id}`"
        );
    }
}

#[test]
fn palette_contributes_through_the_public_api() {
    let reg = with_plugins(&all_builtins());
    assert!(
        reg.command_ids().iter().any(|id| id == PALETTE_COMMAND),
        "command-palette missing — is the palette wired as a plugin (not an app Command arm)?"
    );
}

#[test]
fn disabling_palette_removes_only_its_contributions() {
    let full = with_plugins(&all_builtins());
    let before: Vec<String> = full.command_ids();

    let reduced =
        without(PALETTE_ID);

    assert!(
        !reduced.command_ids().iter().any(|id| id == PALETTE_COMMAND),
        "palette command still present after disabling — it is hardcoded, not a plugin"
    );
    // Nothing unrelated removed (the app's `view.gotoLine` isn't a palette contribution).
    for id in before.iter().filter(|id| !id.starts_with("view.")) {
        assert!(
            reduced.command_ids().iter().any(|c| c == id),
            "disabling palette wrongly removed unrelated command `{id}`"
        );
    }
}

#[test]
fn project_search_contributes_through_the_public_api() {
    let reg = with_plugins(&all_builtins());
    assert!(
        reg.command_ids().iter().any(|id| id == SEARCH_COMMAND),
        "project-search command missing — is it wired as a plugin?"
    );
    assert!(
        reg.panel_ids().iter().any(|id| id == SEARCH_PANEL),
        "project-search results panel missing — is it wired as a plugin?"
    );
}

#[test]
fn disabling_project_search_removes_only_its_contributions() {
    let full = with_plugins(&all_builtins());
    let before: Vec<String> = full.command_ids();

    let reduced =
        without(SEARCH_ID);

    assert!(
        !reduced.command_ids().iter().any(|id| id == SEARCH_COMMAND),
        "project-search command still present after disabling — it is hardcoded, not a plugin"
    );
    assert!(
        !reduced.panel_ids().iter().any(|id| id == SEARCH_PANEL),
        "project-search panel still present after disabling — it is hardcoded, not a plugin"
    );
    // Nothing unrelated removed (find's `search.find` isn't a project-search contribution).
    for id in before.iter().filter(|id| id.as_str() != SEARCH_COMMAND) {
        assert!(
            reduced.command_ids().iter().any(|c| c == id),
            "disabling project-search wrongly removed unrelated command `{id}`"
        );
    }
}

#[test]
fn lsp_contributes_through_the_public_api() {
    let reg = with_plugins(&all_builtins());
    assert!(
        reg.command_ids().iter().any(|id| id == LSP_COMMAND),
        "lsp command missing — is the LSP request feature wired as a plugin?"
    );
}

#[test]
fn disabling_lsp_removes_only_its_contributions() {
    let full = with_plugins(&all_builtins());
    let before: Vec<String> = full.command_ids();

    let reduced = without(LSP_ID);

    assert!(
        !reduced.command_ids().iter().any(|id| id == LSP_COMMAND),
        "lsp command still present after disabling — it is hardcoded, not a plugin"
    );
    // Nothing unrelated removed (the app-side lsp.nextDiagnostic is not a plugin contribution, so
    // it never appears in the registry command ids to begin with).
    for id in before.iter().filter(|id| !id.starts_with("lsp.")) {
        assert!(
            reduced.command_ids().iter().any(|c| c == id),
            "disabling lsp wrongly removed unrelated command `{id}`"
        );
    }
}

#[test]
fn completion_contributes_through_the_public_api() {
    let reg = with_plugins(&all_builtins());
    assert!(
        reg.command_ids().iter().any(|id| id == COMPLETION_COMMAND),
        "completion's lsp.completion missing — is the widget wired as a plugin?"
    );
    let reduced = without(COMPLETION_ID);
    assert!(
        !reduced.command_ids().iter().any(|id| id == COMPLETION_COMMAND),
        "lsp.completion still present after disabling completion — it is hardcoded"
    );
    // Disabling completion must leave the separate `lsp`/`diagnostics` plugins' commands intact.
    assert!(reduced.command_ids().iter().any(|id| id == LSP_COMMAND));
    assert!(reduced.command_ids().iter().any(|id| id == DIAGNOSTICS_COMMAND));
}

#[test]
fn clipboard_contributes_through_the_public_api() {
    let reg = with_plugins(&all_builtins());
    assert!(
        reg.command_ids().iter().any(|id| id == CLIPBOARD_COMMAND),
        "clipboard's edit.paste missing — is copy/cut/paste wired as a plugin?"
    );
    let reduced = without(CLIPBOARD_ID);
    for id in ["edit.copy", "edit.cut", "edit.paste"] {
        assert!(
            !reduced.command_ids().iter().any(|c| c == id),
            "`{id}` still present after disabling clipboard — it is hardcoded, not a plugin"
        );
    }
    // Disabling clipboard must leave unrelated plugins' commands intact.
    assert!(reduced.command_ids().iter().any(|id| id == COMPLETION_COMMAND));
    assert!(reduced.command_ids().iter().any(|id| id == EXPLORER_COMMAND));
}

#[test]
fn vim_contributes_through_the_public_api() {
    let reg = with_plugins(&all_builtins());
    assert!(
        reg.command_ids().iter().any(|id| id == VIM_COMMAND),
        "vim.toggle missing — is the modal layer wired as a plugin?"
    );
    let reduced = without(VIM_ID);
    for id in ["vim.enable", "vim.disable", "vim.toggle"] {
        assert!(
            !reduced.command_ids().iter().any(|c| c == id),
            "`{id}` still present after disabling vim — it is hardcoded, not a plugin"
        );
    }
    // Disabling vim leaves unrelated plugins' commands intact.
    assert!(reduced.command_ids().iter().any(|id| id == CLIPBOARD_COMMAND));
}

#[test]
fn diagnostics_contributes_through_the_public_api() {
    let reg = with_plugins(&all_builtins());
    assert!(
        reg.command_ids().iter().any(|id| id == DIAGNOSTICS_COMMAND),
        "diagnostic-nav command missing — is the diagnostics model wired as a plugin?"
    );
    // The `diagnostics` plugin owns the model but contributes no panel; disabling it must remove
    // its commands and leave the `lsp` plugin's request commands intact.
    let reduced = without(DIAGNOSTICS_ID);
    assert!(!reduced.command_ids().iter().any(|id| id == DIAGNOSTICS_COMMAND));
    assert!(
        reduced.command_ids().iter().any(|id| id == LSP_COMMAND),
        "disabling diagnostics must not remove the separate `lsp` plugin's commands"
    );
}

#[test]
fn terminal_contributes_through_the_public_api() {
    let reg = with_plugins(&all_builtins());
    assert!(
        reg.command_ids().iter().any(|id| id == TERMINAL_COMMAND),
        "terminal command missing — is the terminal dock wired as a plugin?"
    );
}

#[test]
fn disabling_terminal_removes_only_its_contributions() {
    let full = with_plugins(&all_builtins());
    let before: Vec<String> = full.command_ids();

    let reduced =
        without(TERMINAL_ID);

    assert!(
        !reduced.command_ids().iter().any(|id| id == TERMINAL_COMMAND),
        "terminal command still present after disabling — it is hardcoded, not a plugin"
    );
    for id in before.iter().filter(|id| !id.starts_with("terminal.")) {
        assert!(
            reduced.command_ids().iter().any(|c| c == id),
            "disabling terminal wrongly removed unrelated command `{id}`"
        );
    }
}

/// A plugin owns its keybindings too, not just its commands: disabling the plugin unbinds the
/// chord.
#[test]
fn migrated_plugins_contribute_their_keybindings() {
    let full = with_plugins(&all_builtins());
    let bound = |reg: &Registry, chord: &str, command: &str| {
        reg.keybindings()
            .iter()
            .any(|kb| kb.chord == chord && kb.command == command)
    };
    assert!(
        bound(&full, "ctrl+d", "cursor.addNextMatch"),
        "multi-cursor's ctrl+d must be contributed through the registry, not the defaults table"
    );
    assert!(
        bound(&full, "alt+j", "git.nextHunk"),
        "git-nav's alt+j must be contributed through the registry, not the defaults table"
    );
    assert!(
        bound(&full, "ctrl+f", "search.find"),
        "find's ctrl+f must be contributed through the registry, not the defaults table"
    );
    assert!(
        bound(&full, "ctrl+v", "edit.paste"),
        "clipboard's ctrl+v must be contributed through the registry, not the defaults table"
    );

    let no_clipboard = without(CLIPBOARD_ID);
    assert!(
        !bound(&no_clipboard, "ctrl+v", "edit.paste"),
        "disabling clipboard must unbind ctrl+v — otherwise the binding is hardcoded"
    );

    let no_multicursor = without(MULTICURSOR_ID);
    assert!(
        !bound(&no_multicursor, "ctrl+d", "cursor.addNextMatch"),
        "disabling multi-cursor must unbind its chord — otherwise the binding is hardcoded"
    );
}

#[test]
fn the_plugins_are_registered_in_order() {
    let ids: Vec<String> = all_builtins().iter().map(|p| p.id().to_string()).collect();
    assert_eq!(ids.len(), 22);
    assert_eq!(&ids[..4], ["explorer", "multicursor", "git-nav", "find"]);
    assert_eq!(ids[21], "vim");
}

#[test]
fn the_options_reach_the_explorer() {
    for icons in [false, true] {
        match &all_builtins_with(icons)[0] {
            Builtin::Explorer(p) => assert_eq!(p.icons, icons),
            _ => panic!("the explorer comes first"),
        }
    }
}

#[test]
fn every_plugin_can_be_dropped_alone() {
    let full = with_plugins(&all_builtins());
    for p in all_builtins() {
        let own: Vec<String> = p.contributions().commands.iter().map(|c| c.id.clone()).collect();
        let rest = without(p.id()).command_ids();
        for id in full.command_ids() {
            assert_eq!(rest.contains(&id), !own.contains(&id), "{id} without {}", p.id());
        }
    }
}
