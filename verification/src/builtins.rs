//! The built-in plugins, in the order in which the editor registers them.

use vstd::prelude::*;

use crate::clipboard::ClipboardPlugin;
use crate::code_action::CodeActionPlugin;
use crate::code_lens::CodeLensPlugin;
use crate::completion::plugin::CompletionPlugin;
use crate::contribution::{
    gathered, the_registry_holds_what_plugins_contribute, Contributions, Offer, Registry,
};
use crate::diagnostics::DiagnosticsPlugin;
use crate::document_highlight::DocumentHighlightPlugin;
use crate::explorer::plugin::ExplorerPlugin;
use crate::find::plugin::FindReplacePlugin;
use crate::git_nav::GitNavPlugin;
use crate::hover::HoverPlugin;
use crate::inlay_hints::InlayHintsPlugin;
use crate::lsp::LspPlugin;
use crate::lsp_nav::LspNavPlugin;
use crate::multicursor::MultiCursorPlugin;
use crate::palette::PalettePlugin;
use crate::project_search::plugin::ProjectSearchPlugin;
use crate::rename::RenamePlugin;
use crate::semantic_tokens::SemanticTokensPlugin;
use crate::signature_help::SignatureHelpPlugin;
use crate::terminal::TerminalPlugin;
use crate::theme::ThemePlugin;
use crate::vim::plugin::VimPlugin;

verus! {

/// A built-in plugin.
pub enum Builtin {
    Explorer(ExplorerPlugin),
    MultiCursor(MultiCursorPlugin),
    GitNav(GitNavPlugin),
    Find(FindReplacePlugin),
    Palette(PalettePlugin),
    ProjectSearch(ProjectSearchPlugin),
    Theme(ThemePlugin),
    Lsp(LspPlugin),
    LspNav(LspNavPlugin),
    Hover(HoverPlugin),
    SignatureHelp(SignatureHelpPlugin),
    Rename(RenamePlugin),
    Diagnostics(DiagnosticsPlugin),
    DocumentHighlight(DocumentHighlightPlugin),
    SemanticTokens(SemanticTokensPlugin),
    InlayHints(InlayHintsPlugin),
    CodeLens(CodeLensPlugin),
    CodeAction(CodeActionPlugin),
    Completion(CompletionPlugin),
    Clipboard(ClipboardPlugin),
    Terminal(TerminalPlugin),
    Vim(VimPlugin),
}

impl Builtin {
    /// The plugin's id.
    pub open spec fn name(&self) -> Seq<char> {
        match *self {
            Builtin::Explorer(_) => "explorer"@,
            Builtin::MultiCursor(_) => "multicursor"@,
            Builtin::GitNav(_) => "git-nav"@,
            Builtin::Find(_) => "find"@,
            Builtin::Palette(_) => "palette"@,
            Builtin::ProjectSearch(_) => "project-search"@,
            Builtin::Theme(_) => "theme"@,
            Builtin::Lsp(_) => "lsp"@,
            Builtin::LspNav(_) => "lsp-nav"@,
            Builtin::Hover(_) => "hover"@,
            Builtin::SignatureHelp(_) => "signature-help"@,
            Builtin::Rename(_) => "rename"@,
            Builtin::Diagnostics(_) => "diagnostics"@,
            Builtin::DocumentHighlight(_) => "document-highlight"@,
            Builtin::SemanticTokens(_) => "semantic-tokens"@,
            Builtin::InlayHints(_) => "inlay-hints"@,
            Builtin::CodeLens(_) => "code-lens"@,
            Builtin::CodeAction(_) => "code-action"@,
            Builtin::Completion(_) => "completion"@,
            Builtin::Clipboard(_) => "clipboard"@,
            Builtin::Terminal(_) => "terminal"@,
            Builtin::Vim(_) => "vim"@,
        }
    }

    /// What the plugin contributes.
    pub open spec fn offer(&self) -> Offer {
        match *self {
            Builtin::Explorer(_) => crate::explorer::plugin::contributed(),
            Builtin::MultiCursor(_) => crate::multicursor::contributed(),
            Builtin::GitNav(_) => crate::git_nav::contributed(),
            Builtin::Find(_) => crate::find::plugin::contributed(),
            Builtin::Palette(_) => crate::palette::contributed(),
            Builtin::ProjectSearch(_) => crate::project_search::plugin::contributed(),
            Builtin::Theme(_) => crate::theme::contributed(),
            Builtin::Lsp(_) => crate::lsp::contributed(),
            Builtin::LspNav(_) => Offer::none(),
            Builtin::Hover(_) => Offer::none(),
            Builtin::SignatureHelp(_) => crate::signature_help::contributed(),
            Builtin::Rename(_) => Offer::none(),
            Builtin::Diagnostics(_) => crate::diagnostics::contributed(),
            Builtin::DocumentHighlight(_) => Offer::none(),
            Builtin::SemanticTokens(_) => Offer::none(),
            Builtin::InlayHints(_) => Offer::none(),
            Builtin::CodeLens(_) => Offer::none(),
            Builtin::CodeAction(_) => crate::code_action::contributed(),
            Builtin::Completion(_) => crate::completion::plugin::contributed(),
            Builtin::Clipboard(_) => crate::clipboard::contributed(),
            Builtin::Terminal(_) => crate::terminal::contributed(),
            Builtin::Vim(_) => crate::vim::plugin::contributed(),
        }
    }

    /// The plugin's id.
    pub fn id(&self) -> (r: &str)
        ensures
            r@ == self.name(),
    {
        match self {
            Builtin::Explorer(_) => "explorer",
            Builtin::MultiCursor(_) => "multicursor",
            Builtin::GitNav(_) => "git-nav",
            Builtin::Find(_) => "find",
            Builtin::Palette(_) => "palette",
            Builtin::ProjectSearch(_) => "project-search",
            Builtin::Theme(_) => "theme",
            Builtin::Lsp(_) => "lsp",
            Builtin::LspNav(_) => "lsp-nav",
            Builtin::Hover(_) => "hover",
            Builtin::SignatureHelp(_) => "signature-help",
            Builtin::Rename(_) => "rename",
            Builtin::Diagnostics(_) => "diagnostics",
            Builtin::DocumentHighlight(_) => "document-highlight",
            Builtin::SemanticTokens(_) => "semantic-tokens",
            Builtin::InlayHints(_) => "inlay-hints",
            Builtin::CodeLens(_) => "code-lens",
            Builtin::CodeAction(_) => "code-action",
            Builtin::Completion(_) => "completion",
            Builtin::Clipboard(_) => "clipboard",
            Builtin::Terminal(_) => "terminal",
            Builtin::Vim(_) => "vim",
        }
    }

    /// What the plugin contributes.
    pub fn contributions(&self) -> (r: Contributions)
        ensures
            r@ == self.offer(),
    {
        match self {
            Builtin::Explorer(_) => ExplorerPlugin::contributions(),
            Builtin::MultiCursor(_) => MultiCursorPlugin::contributions(),
            Builtin::GitNav(_) => GitNavPlugin::contributions(),
            Builtin::Find(_) => FindReplacePlugin::contributions(),
            Builtin::Palette(_) => PalettePlugin::contributions(),
            Builtin::ProjectSearch(_) => ProjectSearchPlugin::contributions(),
            Builtin::Theme(_) => ThemePlugin::contributions(),
            Builtin::Lsp(_) => LspPlugin::contributions(),
            Builtin::LspNav(_) => Contributions::builder(),
            Builtin::Hover(_) => Contributions::builder(),
            Builtin::SignatureHelp(_) => SignatureHelpPlugin::contributions(),
            Builtin::Rename(_) => Contributions::builder(),
            Builtin::Diagnostics(_) => DiagnosticsPlugin::contributions(),
            Builtin::DocumentHighlight(_) => Contributions::builder(),
            Builtin::SemanticTokens(_) => Contributions::builder(),
            Builtin::InlayHints(_) => Contributions::builder(),
            Builtin::CodeLens(_) => Contributions::builder(),
            Builtin::CodeAction(_) => CodeActionPlugin::contributions(),
            Builtin::Completion(_) => CompletionPlugin::contributions(),
            Builtin::Clipboard(_) => ClipboardPlugin::contributions(),
            Builtin::Terminal(_) => TerminalPlugin::contributions(),
            Builtin::Vim(_) => VimPlugin::contributions(),
        }
    }
}

/// The ids and the contributions of the built-in plugins.
pub open spec fn listed() -> Seq<(Seq<char>, Offer)> {
    seq![
        ("explorer"@, crate::explorer::plugin::contributed()),
        ("multicursor"@, crate::multicursor::contributed()),
        ("git-nav"@, crate::git_nav::contributed()),
        ("find"@, crate::find::plugin::contributed()),
        ("palette"@, crate::palette::contributed()),
        ("project-search"@, crate::project_search::plugin::contributed()),
        ("theme"@, crate::theme::contributed()),
        ("lsp"@, crate::lsp::contributed()),
        ("lsp-nav"@, Offer::none()),
        ("hover"@, Offer::none()),
        ("signature-help"@, crate::signature_help::contributed()),
        ("rename"@, Offer::none()),
        ("diagnostics"@, crate::diagnostics::contributed()),
        ("document-highlight"@, Offer::none()),
        ("semantic-tokens"@, Offer::none()),
        ("inlay-hints"@, Offer::none()),
        ("code-lens"@, Offer::none()),
        ("code-action"@, crate::code_action::contributed()),
        ("completion"@, crate::completion::plugin::contributed()),
        ("clipboard"@, crate::clipboard::contributed()),
        ("terminal"@, crate::terminal::contributed()),
        ("vim"@, crate::vim::plugin::contributed()),
    ]
}

/// The ids and the contributions of plugins.
pub open spec fn described(v: Seq<Builtin>) -> Seq<(Seq<char>, Offer)> {
    v.map_values(|b: Builtin| (b.name(), b.offer()))
}

/// Nothing has happened to the plugin yet.
pub open spec fn unused(b: Builtin, icons: bool) -> bool {
    match b {
        Builtin::Explorer(p) => p@ == crate::explorer::plugin::unopened(icons),
        Builtin::Find(p) => p.state is None,
        Builtin::Palette(p) => p.goto_line@ == Seq::<char>::empty(),
        Builtin::ProjectSearch(p) => p@ == crate::project_search::plugin::unsearched(),
        Builtin::Lsp(p) => p.rename_buf@ == Seq::<char>::empty(),
        Builtin::LspNav(p) => crate::lsp_nav::locations_view(p.locations@).len() == 0,
        Builtin::SignatureHelp(p) => !p.open,
        Builtin::Diagnostics(p) => p.wf() && p.docs().len() == 0 && p.files().len() == 0
            && !p.problems_open,
        Builtin::CodeAction(p) => crate::code_action::actions_view(p.actions@).len() == 0,
        Builtin::Completion(p) => p.state is None && !p.is_incomplete,
        Builtin::Terminal(p) => p@ == crate::terminal::shut(),
        Builtin::Vim(p) => p.state is None,
        _ => true,
    }
}

/// The built-in plugins, without symbols in the explorer.
pub fn all_builtins() -> (r: Vec<Builtin>)
    ensures
        described(r@) == listed(),
        forall|i: int| 0 <= i < r@.len() ==> unused(#[trigger] r@[i], false),
{
    all_builtins_with(false)
}

/// The built-in plugins; `icons` says whether the explorer has symbols.
pub fn all_builtins_with(icons: bool) -> (r: Vec<Builtin>)
    ensures
        described(r@) == listed(),
        forall|i: int| 0 <= i < r@.len() ==> unused(#[trigger] r@[i], icons),
{
    let mut v: Vec<Builtin> = Vec::new();
    v.push(Builtin::Explorer(ExplorerPlugin::new(icons)));
    v.push(Builtin::MultiCursor(MultiCursorPlugin));
    v.push(Builtin::GitNav(GitNavPlugin));
    v.push(Builtin::Find(FindReplacePlugin::new()));
    v.push(Builtin::Palette(PalettePlugin::new()));
    v.push(Builtin::ProjectSearch(ProjectSearchPlugin::new()));
    v.push(Builtin::Theme(ThemePlugin));
    v.push(Builtin::Lsp(LspPlugin::new()));
    v.push(Builtin::LspNav(LspNavPlugin::new()));
    v.push(Builtin::Hover(HoverPlugin));
    v.push(Builtin::SignatureHelp(SignatureHelpPlugin::new()));
    v.push(Builtin::Rename(RenamePlugin));
    v.push(Builtin::Diagnostics(DiagnosticsPlugin::new()));
    v.push(Builtin::DocumentHighlight(DocumentHighlightPlugin));
    v.push(Builtin::SemanticTokens(SemanticTokensPlugin));
    v.push(Builtin::InlayHints(InlayHintsPlugin));
    v.push(Builtin::CodeLens(CodeLensPlugin));
    v.push(Builtin::CodeAction(CodeActionPlugin::new()));
    v.push(Builtin::Completion(CompletionPlugin::new()));
    v.push(Builtin::Clipboard(ClipboardPlugin));
    v.push(Builtin::Terminal(TerminalPlugin::new()));
    v.push(Builtin::Vim(VimPlugin::new()));
    assert(described(v@) =~= listed());
    v
}

/// The contributions of plugins.
pub open spec fn offers(v: Seq<(Seq<char>, Offer)>) -> Seq<Offer> {
    v.map_values(|p: (Seq<char>, Offer)| p.1)
}

/// All that plugins contribute.
pub open spec fn registered(v: Seq<(Seq<char>, Offer)>) -> Offer {
    gathered(offers(v), v.len() as int)
}

/// The registry of plugins.
pub fn with_plugins(plugins: &[Builtin]) -> (r: Registry)
    ensures
        r.all@ == registered(described(plugins@)),
{
    let ghost all = offers(described(plugins@));
    let mut r: Registry = Registry::new();
    let mut i: usize = 0;
    while i < plugins.len()
        invariant
            i <= plugins.len(),
            all == offers(described(plugins@)),
            r.all@ == gathered(all, i as int),
        decreases plugins.len() - i,
    {
        assert(all[i as int] == plugins@[i as int].offer());
        r.register(plugins[i].contributions());
        i += 1;
    }
    r
}

/// The plugins but for the one of an id.
pub open spec fn without(v: Seq<(Seq<char>, Offer)>, id: Seq<char>, n: int) -> Seq<
    (Seq<char>, Offer),
>
    decreases n,
{
    if n <= 0 {
        Seq::empty()
    } else if v[n - 1].0 == id {
        without(v, id, n - 1)
    } else {
        without(v, id, n - 1).push(v[n - 1])
    }
}

proof fn lemma_without(v: Seq<(Seq<char>, Offer)>, id: Seq<char>, n: int)
    requires
        0 <= n <= v.len(),
    ensures
        forall|k: int|
            0 <= k < without(v, id, n).len() ==> (#[trigger] without(v, id, n)[k]).0 != id
                && v.contains(without(v, id, n)[k]),
        forall|i: int|
            0 <= i < n && (#[trigger] v[i]).0 != id ==> without(v, id, n).contains(v[i]),
    decreases n,
{
    if n > 0 {
        lemma_without(v, id, n - 1);
        let w = without(v, id, n - 1);
        let all = without(v, id, n);
        assert(v.contains(v[n - 1]));
        assert forall|i: int| 0 <= i < n && (#[trigger] v[i]).0 != id implies all.contains(
            v[i],
        ) by {
            if i == n - 1 {
                assert(all[all.len() - 1] == v[i]);
            } else {
                let k = choose|k: int| 0 <= k < w.len() && w[k] == v[i];
                assert(all[k] == v[i]);
            }
        }
    }
}

/// Without one of the plugins, just what the others contribute is left.
pub proof fn dropping_a_plugin_leaves_the_others(v: Seq<(Seq<char>, Offer)>, id: Seq<char>)
    ensures
        ({
            let rest = registered(without(v, id, v.len() as int));
            &&& forall|c: Seq<char>| #[trigger]
                rest.has_command(c) <==> exists|i: int|
                    0 <= i < v.len() && (#[trigger] v[i]).0 != id && v[i].1.has_command(c)
            &&& forall|c: Seq<char>| #[trigger]
                rest.has_panel(c) <==> exists|i: int|
                    0 <= i < v.len() && (#[trigger] v[i]).0 != id && v[i].1.has_panel(c)
            &&& forall|chord: Seq<char>, c: Seq<char>| #[trigger]
                rest.binds(chord, c) <==> exists|i: int|
                    0 <= i < v.len() && (#[trigger] v[i]).0 != id && v[i].1.binds(chord, c)
        }),
{
    let w = without(v, id, v.len() as int);
    let rest = registered(w);
    let o = offers(w);
    lemma_without(v, id, v.len() as int);
    the_registry_holds_what_plugins_contribute(o, w.len() as int);
    assert forall|c: Seq<char>| #[trigger] rest.has_command(c) implies exists|i: int|
        0 <= i < v.len() && (#[trigger] v[i]).0 != id && v[i].1.has_command(c) by {
        let k = choose|k: int| 0 <= k < w.len() && (#[trigger] o[k]).has_command(c);
        assert(o[k] == w[k].1);
        let i = choose|i: int| 0 <= i < v.len() && v[i] == w[k];
        assert(v[i].0 != id && v[i].1.has_command(c));
    }
    assert forall|c: Seq<char>|
        (exists|i: int| 0 <= i < v.len() && (#[trigger] v[i]).0 != id && v[i].1.has_command(c))
            implies #[trigger] rest.has_command(c) by {
        let i = choose|i: int|
            0 <= i < v.len() && (#[trigger] v[i]).0 != id && v[i].1.has_command(c);
        let k = choose|k: int| 0 <= k < w.len() && w[k] == v[i];
        assert(o[k] == w[k].1);
        assert(o[k].has_command(c));
    }
    assert forall|c: Seq<char>| #[trigger] rest.has_panel(c) implies exists|i: int|
        0 <= i < v.len() && (#[trigger] v[i]).0 != id && v[i].1.has_panel(c) by {
        let k = choose|k: int| 0 <= k < w.len() && (#[trigger] o[k]).has_panel(c);
        assert(o[k] == w[k].1);
        let i = choose|i: int| 0 <= i < v.len() && v[i] == w[k];
        assert(v[i].0 != id && v[i].1.has_panel(c));
    }
    assert forall|c: Seq<char>|
        (exists|i: int| 0 <= i < v.len() && (#[trigger] v[i]).0 != id && v[i].1.has_panel(c))
            implies #[trigger] rest.has_panel(c) by {
        let i = choose|i: int|
            0 <= i < v.len() && (#[trigger] v[i]).0 != id && v[i].1.has_panel(c);
        let k = choose|k: int| 0 <= k < w.len() && w[k] == v[i];
        assert(o[k] == w[k].1);
        assert(o[k].has_panel(c));
    }
    assert forall|chord: Seq<char>, c: Seq<char>| #[trigger] rest.binds(chord, c) implies exists|
        i: int,
    |
        0 <= i < v.len() && (#[trigger] v[i]).0 != id && v[i].1.binds(chord, c) by {
        let k = choose|k: int| 0 <= k < w.len() && (#[trigger] o[k]).binds(chord, c);
        assert(o[k] == w[k].1);
        let i = choose|i: int| 0 <= i < v.len() && v[i] == w[k];
        assert(v[i].0 != id && v[i].1.binds(chord, c));
    }
    assert forall|chord: Seq<char>, c: Seq<char>|
        (exists|i: int| 0 <= i < v.len() && (#[trigger] v[i]).0 != id && v[i].1.binds(chord, c))
            implies #[trigger] rest.binds(chord, c) by {
        let i = choose|i: int|
            0 <= i < v.len() && (#[trigger] v[i]).0 != id && v[i].1.binds(chord, c);
        let k = choose|k: int| 0 <= k < w.len() && w[k] == v[i];
        assert(o[k] == w[k].1);
        assert(o[k].binds(chord, c));
    }
}

/// The number of the built-in plugin that a command belongs to, told by its letters.
spec fn owner(c: Seq<char>) -> int {
    if c[0] == 'e' {
        if c[1] == 'x' {
            0
        } else {
            19
        }
    } else if c[0] == 'c' {
        1
    } else if c[0] == 'g' {
        2
    } else if c[0] == 's' {
        if c[7] == 'p' {
            5
        } else {
            3
        }
    } else if c[0] == 't' {
        20
    } else if c[0] == 'v' {
        if c[2] == 'm' {
            21
        } else if c[5] == 't' {
            6
        } else {
            4
        }
    } else if c[4] == 's' {
        10
    } else if c[4] == 'n' || c[4] == 'p' {
        12
    } else if c[4] == 'c' {
        if c[6] == 'd' {
            17
        } else {
            18
        }
    } else {
        7
    }
}

/// The number of the built-in plugin that a panel belongs to, told by its first letter.
spec fn panel_owner(p: Seq<char>) -> int {
    if p[0] == 'e' {
        0
    } else if p[0] == 's' {
        5
    } else {
        12
    }
}

/// Whether all commands, chords and panels of an offer belong to one plugin.
spec fn owned(o: Offer, k: int) -> bool {
    &&& forall|i: int| 0 <= i < o.commands.len() ==> owner((#[trigger] o.commands[i]).0) == k
    &&& forall|i: int| 0 <= i < o.keybindings.len() ==> owner((#[trigger] o.keybindings[i]).1) == k
    &&& forall|i: int| 0 <= i < o.panels.len() ==> panel_owner((#[trigger] o.panels[i]).0) == k
}

proof fn lemma_explorer_owned()
    ensures
        owned(crate::explorer::plugin::contributed(), 0),
{
    reveal_strlit("explorer.activate");
    reveal_strlit("explorer.collapse");
    reveal_strlit("explorer.delete");
    reveal_strlit("explorer.down");
    reveal_strlit("explorer.expand");
    reveal_strlit("explorer.newFile");
    reveal_strlit("explorer.newFolder");
    reveal_strlit("explorer.rename");
    reveal_strlit("explorer.revealActiveFile");
    reveal_strlit("explorer.tree");
    reveal_strlit("explorer.up");
}

proof fn lemma_multicursor_owned()
    ensures
        owned(crate::multicursor::contributed(), 1),
{
    reveal_strlit("cursor.addAbove");
    reveal_strlit("cursor.addBelow");
    reveal_strlit("cursor.addNextMatch");
    reveal_strlit("cursor.selectAllMatches");
}

proof fn lemma_git_nav_owned()
    ensures
        owned(crate::git_nav::contributed(), 2),
{
    reveal_strlit("git.nextHunk");
    reveal_strlit("git.prevHunk");
}

proof fn lemma_find_owned()
    ensures
        owned(crate::find::plugin::contributed(), 3),
{
    reveal_strlit("search.find");
    reveal_strlit("search.findNext");
    reveal_strlit("search.findPrev");
    reveal_strlit("search.replace");
    reveal_strlit("search.replaceAll");
}

proof fn lemma_palette_owned()
    ensures
        owned(crate::palette::contributed(), 4),
{
    reveal_strlit("view.commandPalette");
    reveal_strlit("view.gotoLine");
    reveal_strlit("view.quickOpen");
}

proof fn lemma_project_search_owned()
    ensures
        owned(crate::project_search::plugin::contributed(), 5),
{
    reveal_strlit("search.project");
    reveal_strlit("search.results");
}

proof fn lemma_theme_owned()
    ensures
        owned(crate::theme::contributed(), 6),
{
    reveal_strlit("view.toggleTheme");
}

proof fn lemma_lsp_owned()
    ensures
        owned(crate::lsp::contributed(), 7),
{
    reveal_strlit("lsp.documentSymbols");
    reveal_strlit("lsp.format");
    reveal_strlit("lsp.gotoDefinition");
    reveal_strlit("lsp.gotoImplementation");
    reveal_strlit("lsp.gotoTypeDefinition");
    reveal_strlit("lsp.hover");
    reveal_strlit("lsp.references");
    reveal_strlit("lsp.rename");
}

proof fn lemma_signature_help_owned()
    ensures
        owned(crate::signature_help::contributed(), 10),
{
    reveal_strlit("lsp.signatureHelp");
}

proof fn lemma_diagnostics_owned()
    ensures
        owned(crate::diagnostics::contributed(), 12),
{
    reveal_strlit("lsp.nextDiagnostic");
    reveal_strlit("lsp.prevDiagnostic");
    reveal_strlit("lsp.problems");
}

proof fn lemma_code_action_owned()
    ensures
        owned(crate::code_action::contributed(), 17),
{
    reveal_strlit("lsp.codeAction");
}

proof fn lemma_completion_owned()
    ensures
        owned(crate::completion::plugin::contributed(), 18),
{
    reveal_strlit("lsp.completion");
}

proof fn lemma_clipboard_owned()
    ensures
        owned(crate::clipboard::contributed(), 19),
{
    reveal_strlit("edit.copy");
    reveal_strlit("edit.cut");
    reveal_strlit("edit.paste");
}

proof fn lemma_terminal_owned()
    ensures
        owned(crate::terminal::contributed(), 20),
{
    reveal_strlit("terminal.close");
    reveal_strlit("terminal.minimize");
    reveal_strlit("terminal.new");
    reveal_strlit("terminal.next");
    reveal_strlit("terminal.prev");
    reveal_strlit("terminal.toggle");
}

proof fn lemma_vim_owned()
    ensures
        owned(crate::vim::plugin::contributed(), 21),
{
    reveal_strlit("vim.disable");
    reveal_strlit("vim.enable");
    reveal_strlit("vim.toggle");
}

/// All that a built-in plugin contributes belongs to it.
proof fn lemma_owned(k: int)
    requires
        0 <= k < listed().len(),
    ensures
        owned(listed()[k].1, k),
{
    lemma_explorer_owned();
    lemma_multicursor_owned();
    lemma_git_nav_owned();
    lemma_find_owned();
    lemma_palette_owned();
    lemma_project_search_owned();
    lemma_theme_owned();
    lemma_lsp_owned();
    lemma_signature_help_owned();
    lemma_diagnostics_owned();
    lemma_code_action_owned();
    lemma_completion_owned();
    lemma_clipboard_owned();
    lemma_terminal_owned();
    lemma_vim_owned();
}

/// The number of a built-in plugin, told by its id's letters.
spec fn place(id: Seq<char>) -> int {
    let n = id.len();
    if id[0] == 'e' {
        0
    } else if id[0] == 'm' {
        1
    } else if id[0] == 'g' {
        2
    } else if id[0] == 'f' {
        3
    } else if id[0] == 'p' {
        if n == 7 {
            4
        } else {
            5
        }
    } else if id[0] == 't' {
        if n == 5 {
            6
        } else {
            20
        }
    } else if id[0] == 'l' {
        if n == 3 {
            7
        } else {
            8
        }
    } else if id[0] == 'h' {
        9
    } else if id[0] == 's' {
        if n == 14 {
            10
        } else {
            14
        }
    } else if id[0] == 'r' {
        11
    } else if id[0] == 'd' {
        if n == 11 {
            12
        } else {
            13
        }
    } else if id[0] == 'i' {
        15
    } else if id[0] == 'c' {
        if id[1] == 'l' {
            19
        } else if n == 9 {
            16
        } else if n == 11 {
            17
        } else {
            18
        }
    } else {
        21
    }
}

proof fn lemma_place(k: int)
    requires
        0 <= k < listed().len(),
    ensures
        place(listed()[k].0) == k,
{
    reveal_strlit("explorer");
    reveal_strlit("multicursor");
    reveal_strlit("git-nav");
    reveal_strlit("find");
    reveal_strlit("palette");
    reveal_strlit("project-search");
    reveal_strlit("theme");
    reveal_strlit("lsp");
    reveal_strlit("lsp-nav");
    reveal_strlit("hover");
    reveal_strlit("signature-help");
    reveal_strlit("rename");
    reveal_strlit("diagnostics");
    reveal_strlit("document-highlight");
    reveal_strlit("semantic-tokens");
    reveal_strlit("inlay-hints");
    reveal_strlit("code-lens");
    reveal_strlit("code-action");
    reveal_strlit("completion");
    reveal_strlit("clipboard");
    reveal_strlit("terminal");
    reveal_strlit("vim");
}

/// No command and no panel is contributed by two built-in plugins, no chord is bound to one command
/// by two, and no two have one id.
pub proof fn builtins_share_nothing(i: int, j: int)
    requires
        0 <= i < j < listed().len(),
    ensures
        listed()[i].0 != listed()[j].0,
        forall|c: Seq<char>|
            !(#[trigger] listed()[i].1.has_command(c) && listed()[j].1.has_command(c)),
        forall|c: Seq<char>| !(#[trigger] listed()[i].1.has_panel(c) && listed()[j].1.has_panel(c)),
        forall|chord: Seq<char>, c: Seq<char>|
            !(#[trigger] listed()[i].1.binds(chord, c) && listed()[j].1.binds(chord, c)),
{
    lemma_place(i);
    lemma_place(j);
    lemma_owned(i);
    lemma_owned(j);
    let a = listed()[i].1;
    let b = listed()[j].1;
    assert forall|c: Seq<char>| !(#[trigger] a.has_command(c) && b.has_command(c)) by {
        if a.has_command(c) && b.has_command(c) {
            let x = choose|x: int| 0 <= x < a.commands.len() && (#[trigger] a.commands[x]).0 == c;
            let y = choose|y: int| 0 <= y < b.commands.len() && (#[trigger] b.commands[y]).0 == c;
            assert(owner(a.commands[x].0) == i && owner(b.commands[y].0) == j);
        }
    }
    assert forall|c: Seq<char>| !(#[trigger] a.has_panel(c) && b.has_panel(c)) by {
        if a.has_panel(c) && b.has_panel(c) {
            let x = choose|x: int| 0 <= x < a.panels.len() && (#[trigger] a.panels[x]).0 == c;
            let y = choose|y: int| 0 <= y < b.panels.len() && (#[trigger] b.panels[y]).0 == c;
            assert(panel_owner(a.panels[x].0) == i && panel_owner(b.panels[y].0) == j);
        }
    }
    assert forall|chord: Seq<char>, c: Seq<char>|
        !(#[trigger] a.binds(chord, c) && b.binds(chord, c)) by {
        if a.binds(chord, c) && b.binds(chord, c) {
            let x = choose|x: int| 0 <= x < a.keybindings.len() && a.keybindings[x] == (chord, c);
            let y = choose|y: int| 0 <= y < b.keybindings.len() && b.keybindings[y] == (chord, c);
            assert(owner(a.keybindings[x].1) == i && owner(b.keybindings[y].1) == j);
        }
    }
}

/// With all built-in plugins, all that one of them contributes is in the registry. Without it,
/// exactly that is gone.
pub proof fn dropping_a_builtin_removes_only_its_contributions(k: int)
    requires
        0 <= k < listed().len(),
    ensures
        ({
            let own = listed()[k].1;
            let full = registered(listed());
            let rest = registered(without(listed(), listed()[k].0, listed().len() as int));
            &&& forall|c: Seq<char>| #[trigger] own.has_command(c) ==> full.has_command(c)
            &&& forall|c: Seq<char>| #[trigger] own.has_panel(c) ==> full.has_panel(c)
            &&& forall|chord: Seq<char>, c: Seq<char>| #[trigger]
                own.binds(chord, c) ==> full.binds(chord, c)
            &&& forall|c: Seq<char>| #[trigger]
                rest.has_command(c) <==> full.has_command(c) && !own.has_command(c)
            &&& forall|c: Seq<char>| #[trigger]
                rest.has_panel(c) <==> full.has_panel(c) && !own.has_panel(c)
            &&& forall|chord: Seq<char>, c: Seq<char>| #[trigger]
                rest.binds(chord, c) <==> full.binds(chord, c) && !own.binds(chord, c)
        }),
{
    let v = listed();
    let own = v[k].1;
    let full = registered(v);
    let o = offers(v);
    let rest = registered(without(v, v[k].0, v.len() as int));
    the_registry_holds_what_plugins_contribute(o, v.len() as int);
    dropping_a_plugin_leaves_the_others(v, v[k].0);
    assert forall|i: int| 0 <= i < v.len() implies #[trigger] o[i] == v[i].1 by {}
    assert forall|i: int| 0 <= i < v.len() && i != k implies (#[trigger] v[i]).0 != v[k].0 by {
        if i < k {
            builtins_share_nothing(i, k);
        } else {
            builtins_share_nothing(k, i);
        }
    }
    assert forall|c: Seq<char>| #[trigger] own.has_command(c) implies full.has_command(c) by {
        assert(o[k].has_command(c));
    }
    assert forall|c: Seq<char>| #[trigger] own.has_panel(c) implies full.has_panel(c) by {
        assert(o[k].has_panel(c));
    }
    assert forall|chord: Seq<char>, c: Seq<char>| #[trigger] own.binds(chord, c) implies full.binds(
        chord,
        c,
    ) by {
        assert(o[k].binds(chord, c));
    }
    assert forall|c: Seq<char>| #[trigger] rest.has_command(c) <==> full.has_command(c)
        && !own.has_command(c) by {
        if rest.has_command(c) {
            let i = choose|i: int|
                0 <= i < v.len() && (#[trigger] v[i]).0 != v[k].0 && v[i].1.has_command(c);
            lemma_apart(i, k);
            assert(o[i].has_command(c));
        }
        if full.has_command(c) && !own.has_command(c) {
            let i = choose|i: int| 0 <= i < v.len() && (#[trigger] o[i]).has_command(c);
            assert(o[i] == v[i].1 && v[i].0 != v[k].0);
        }
    }
    assert forall|c: Seq<char>| #[trigger] rest.has_panel(c) <==> full.has_panel(c)
        && !own.has_panel(c) by {
        if rest.has_panel(c) {
            let i = choose|i: int|
                0 <= i < v.len() && (#[trigger] v[i]).0 != v[k].0 && v[i].1.has_panel(c);
            lemma_apart(i, k);
            assert(o[i].has_panel(c));
        }
        if full.has_panel(c) && !own.has_panel(c) {
            let i = choose|i: int| 0 <= i < v.len() && (#[trigger] o[i]).has_panel(c);
            assert(o[i] == v[i].1 && v[i].0 != v[k].0);
        }
    }
    assert forall|chord: Seq<char>, c: Seq<char>| #[trigger] rest.binds(chord, c) <==> full.binds(
        chord,
        c,
    ) && !own.binds(chord, c) by {
        if rest.binds(chord, c) {
            let i = choose|i: int|
                0 <= i < v.len() && (#[trigger] v[i]).0 != v[k].0 && v[i].1.binds(chord, c);
            lemma_apart(i, k);
            assert(o[i].binds(chord, c));
        }
        if full.binds(chord, c) && !own.binds(chord, c) {
            let i = choose|i: int| 0 <= i < v.len() && (#[trigger] o[i]).binds(chord, c);
            assert(o[i] == v[i].1 && v[i].0 != v[k].0);
        }
    }
}

proof fn lemma_apart(i: int, k: int)
    requires
        0 <= i < listed().len(),
        0 <= k < listed().len(),
        i != k,
    ensures
        forall|c: Seq<char>|
            #[trigger] listed()[i].1.has_command(c) ==> !listed()[k].1.has_command(c),
        forall|c: Seq<char>| #[trigger] listed()[i].1.has_panel(c) ==> !listed()[k].1.has_panel(c),
        forall|chord: Seq<char>, c: Seq<char>|
            #[trigger] listed()[i].1.binds(chord, c) ==> !listed()[k].1.binds(chord, c),
{
    if i < k {
        builtins_share_nothing(i, k);
    } else {
        builtins_share_nothing(k, i);
    }
}

} // verus!
