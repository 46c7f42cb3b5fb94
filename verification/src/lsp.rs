//! Requests to the language server, and the prompt for a new name.

use vstd::prelude::*;

use crate::contribution::{Contributions, Offer};
use crate::doc::Doc;
use crate::effect::{effects_view, emit, no_effects, Effect, EffectView};
use crate::key::{Key, KeyCode};
use crate::protocol::{Request, RequestView};
use crate::text::{no_text, same};
use crate::ui::{entry_prompt, Prompt, PromptView};

verus! {

/// The name typed so far, while it is asked for.
pub struct LspPlugin {
    pub rename_buf: String,
}

/// The prompt for a new name.
pub open spec fn rename_prompt(name: Seq<char>) -> PromptView {
    entry_prompt(
        "lsp"@,
        "lsp.rename"@,
        "Rename Symbol"@,
        "Name"@,
        name,
        "[Enter] Apply   [Esc] Cancel"@,
        None,
    )
}

/// The request that a command is for.
pub open spec fn request_of(command: Seq<char>) -> Option<RequestView> {
    if command == "lsp.hover"@ {
        Some(RequestView::Hover)
    } else if command == "lsp.gotoDefinition"@ {
        Some(RequestView::Definition)
    } else if command == "lsp.gotoImplementation"@ {
        Some(RequestView::Implementation)
    } else if command == "lsp.gotoTypeDefinition"@ {
        Some(RequestView::TypeDefinition)
    } else if command == "lsp.references"@ {
        Some(RequestView::References)
    } else if command == "lsp.documentSymbols"@ {
        Some(RequestView::DocumentSymbols)
    } else if command == "lsp.format"@ {
        Some(RequestView::Formatting)
    } else {
        None
    }
}

/// The request that a command is for.
fn request_for(command: &str) -> (r: Option<Request>)
    ensures
        match r {
            Some(q) => request_of(command@) == Some(q@),
            None => request_of(command@) is None,
        },
{
    if same(command, "lsp.hover") {
        Some(Request::Hover)
    } else if same(command, "lsp.gotoDefinition") {
        Some(Request::Definition)
    } else if same(command, "lsp.gotoImplementation") {
        Some(Request::Implementation)
    } else if same(command, "lsp.gotoTypeDefinition") {
        Some(Request::TypeDefinition)
    } else if same(command, "lsp.references") {
        Some(Request::References)
    } else if same(command, "lsp.documentSymbols") {
        Some(Request::DocumentSymbols)
    } else if same(command, "lsp.format") {
        Some(Request::Formatting)
    } else {
        None
    }
}

/// The name under the caret: the characters of the word there.
pub open spec fn name_at(d: Option<&Doc>, word: (usize, usize)) -> Seq<char> {
    match d {
        Some(d) => d.slice(word.0 as int, word.1 as int),
        None => Seq::empty(),
    }
}

/// What a command does to the typed name, and what it asks for; nothing where it is not one of
/// these. Without a server the commands are taken and do nothing.
pub open spec fn commanded(
    name: Seq<char>,
    command: Seq<char>,
    lsp: bool,
    d: Option<&Doc>,
    word: (usize, usize),
) -> Option<(Seq<char>, Seq<EffectView>)> {
    match request_of(command) {
        Some(q) => Some(
            (
                name,
                if lsp {
                    seq![EffectView::Ask(q)]
                } else {
                    Seq::empty()
                },
            ),
        ),
        None => if command == "lsp.rename"@ {
            if lsp {
                Some(
                    (
                        name_at(d, word),
                        seq![EffectView::SetPrompt(rename_prompt(name_at(d, word)))],
                    ),
                )
            } else {
                Some((name, Seq::empty()))
            }
        } else {
            None
        },
    }
}

/// What a key does to the typed name, and what it asks for.
pub open spec fn pressed(name: Seq<char>, key: Key) -> (Seq<char>, Seq<EffectView>) {
    match key.code {
        KeyCode::Esc => (name, seq![EffectView::DismissPrompt]),
        KeyCode::Enter => (
            name,
            if name.len() > 0 {
                seq![EffectView::DismissPrompt, EffectView::Ask(RequestView::Rename(name))]
            } else {
                seq![EffectView::DismissPrompt]
            },
        ),
        KeyCode::Backspace => {
            let n = if name.len() == 0 {
                name
            } else {
                name.drop_last()
            };
            (n, seq![EffectView::SetPrompt(rename_prompt(n))])
        },
        KeyCode::Char(c) => if !key.ctrl && !key.alt {
            (name.push(c), seq![EffectView::SetPrompt(rename_prompt(name.push(c)))])
        } else {
            (name, Seq::empty())
        },
        _ => (name, Seq::empty()),
    }
}

/// What the plugin contributes.
pub open spec fn contributed() -> Offer {
    Offer::none()
        .command("lsp.hover"@, "Go: Show Hover"@)
        .command("lsp.gotoDefinition"@, "Go: Go to Definition"@)
        .command("lsp.gotoImplementation"@, "Go: Go to Implementation"@)
        .command("lsp.gotoTypeDefinition"@, "Go: Go to Type Definition"@)
        .command("lsp.references"@, "Go: Find All References"@)
        .command("lsp.documentSymbols"@, "Go: Symbols in File…"@)
        .command("lsp.rename"@, "Refactor: Rename Symbol"@)
        .command("lsp.format"@, "Edit: Format Document"@)
        .keybinding("ctrl+k ctrl+i"@, "lsp.hover"@)
        .keybinding("f12"@, "lsp.gotoDefinition"@)
        .keybinding("ctrl+f12"@, "lsp.gotoImplementation"@)
        .keybinding("shift+f12"@, "lsp.references"@)
        .keybinding("ctrl+shift+o"@, "lsp.documentSymbols"@)
        .keybinding("f2"@, "lsp.rename"@)
        .keybinding("shift+alt+f"@, "lsp.format"@)
}

impl LspPlugin {
    /// What the plugin contributes.
    pub fn contributions() -> (r: Contributions)
        ensures
            r@ == contributed(),
    {
        Contributions::builder()
            .command("lsp.hover", "Go: Show Hover")
            .command("lsp.gotoDefinition", "Go: Go to Definition")
            .command("lsp.gotoImplementation", "Go: Go to Implementation")
            .command("lsp.gotoTypeDefinition", "Go: Go to Type Definition")
            .command("lsp.references", "Go: Find All References")
            .command("lsp.documentSymbols", "Go: Symbols in File…")
            .command("lsp.rename", "Refactor: Rename Symbol")
            .command("lsp.format", "Edit: Format Document")
            .keybinding("ctrl+k ctrl+i", "lsp.hover")
            .keybinding("f12", "lsp.gotoDefinition")
            .keybinding("ctrl+f12", "lsp.gotoImplementation")
            .keybinding("shift+f12", "lsp.references")
            .keybinding("ctrl+shift+o", "lsp.documentSymbols")
            .keybinding("f2", "lsp.rename")
            .keybinding("shift+alt+f", "lsp.format")
    }

    /// No name.
    pub fn new() -> (r: LspPlugin)
        ensures
            r.rename_buf@ == Seq::<char>::empty(),
    {
        LspPlugin { rename_buf: no_text() }
    }

    /// The prompt for a new name.
    fn prompt(&self) -> (r: Effect)
        ensures
            r@ == EffectView::SetPrompt(rename_prompt(self.rename_buf@)),
    {
        Effect::SetPrompt(
            Prompt::entry(
                "lsp",
                "lsp.rename",
                "Rename Symbol".to_owned(),
                "Name",
                self.rename_buf.clone(),
                "[Enter] Apply   [Esc] Cancel",
                None,
            ),
        )
    }

    /// Run a command; none where it is not one of these. `word` is the word under the caret.
    pub fn run_command(
        &mut self,
        command_id: &str,
        lsp: bool,
        doc: Option<&Doc>,
        word: (usize, usize),
    ) -> (r: Option<Vec<Effect>>)
        ensures
            match commanded(old(self).rename_buf@, command_id@, lsp, doc, word) {
                Some((name, out)) => r is Some && final(self).rename_buf@ == name && effects_view(
                    r->0@,
                ) == out,
                None => r is None && *final(self) == *old(self),
            },
    {
        let mut out: Vec<Effect> = no_effects();
        match request_for(command_id) {
            Some(q) => {
                if lsp {
                    emit(&mut out, Effect::Ask(q));
                }
                Some(out)
            },
            None => {
                if !same(command_id, "lsp.rename") {
                    return None;
                }
                if lsp {
                    self.rename_buf = match doc {
                        Some(d) => d.text_between(word.0, word.1),
                        None => no_text(),
                    };
                    emit(&mut out, self.prompt());
                }
                Some(out)
            },
        }
    }

    /// Handle a key while the name is asked for; none where another prompt has the keys.
    pub fn on_prompt_key(&mut self, prompt_id: &str, key: Key) -> (r: Option<Vec<Effect>>)
        ensures
            r is Some == (prompt_id@ == "lsp.rename"@),
            r is None ==> *final(self) == *old(self),
            r is Some ==> final(self).rename_buf@ == pressed(old(self).rename_buf@, key).0
                && effects_view(r->0@) == pressed(old(self).rename_buf@, key).1,
    {
        if !same(prompt_id, "lsp.rename") {
            return None;
        }
        let mut out: Vec<Effect> = no_effects();
        match key.code {
            KeyCode::Esc => emit(&mut out, Effect::DismissPrompt),
            KeyCode::Enter => {
                emit(&mut out, Effect::DismissPrompt);
                if !self.rename_buf.as_str().is_empty() {
                    emit(&mut out, Effect::Ask(Request::Rename(self.rename_buf.clone())));
                }
            },
            KeyCode::Backspace => {
                let _ = self.rename_buf.pop();
                emit(&mut out, self.prompt());
            },
            KeyCode::Char(c) => {
                if !key.ctrl && !key.alt {
                    self.rename_buf.push(c);
                    emit(&mut out, self.prompt());
                }
            },
            _ => {},
        }
        Some(out)
    }
}

/// A command's name by its length and two of its letters.
spec fn marked(s: Seq<char>, n: int, a: char, b: char) -> bool {
    s.len() == n && s[4] == a && s[n - 1] == b
}

proof fn lemma_commands()
    ensures
        marked("lsp.hover"@, 9, 'h', 'r'),
        marked("lsp.gotoDefinition"@, 18, 'g', 'n'),
        marked("lsp.gotoImplementation"@, 22, 'g', 'n'),
        marked("lsp.gotoTypeDefinition"@, 22, 'g', 'n'),
        "lsp.gotoImplementation"@[8] == 'I',
        "lsp.gotoTypeDefinition"@[8] == 'T',
        marked("lsp.references"@, 14, 'r', 's'),
        marked("lsp.documentSymbols"@, 19, 'd', 's'),
        marked("lsp.format"@, 10, 'f', 't'),
        marked("lsp.rename"@, 10, 'r', 'e'),
{
    reveal_strlit("lsp.hover");
    reveal_strlit("lsp.gotoDefinition");
    reveal_strlit("lsp.gotoImplementation");
    reveal_strlit("lsp.gotoTypeDefinition");
    reveal_strlit("lsp.references");
    reveal_strlit("lsp.documentSymbols");
    reveal_strlit("lsp.format");
    reveal_strlit("lsp.rename");
}

/// Each command asks the server for its own thing, and for nothing else; without a server none asks.
pub proof fn commands_ask_for_their_own_request(
    name: Seq<char>,
    lsp: bool,
    d: Option<&Doc>,
    word: (usize, usize),
)
    ensures
        ({
            let run = |c: Seq<char>| commanded(name, c, lsp, d, word);
            let ask = |q: RequestView|
                Some(
                    (
                        name,
                        if lsp {
                            seq![EffectView::Ask(q)]
                        } else {
                            Seq::<EffectView>::empty()
                        },
                    ),
                );
            &&& run("lsp.hover"@) == ask(RequestView::Hover)
            &&& run("lsp.gotoDefinition"@) == ask(RequestView::Definition)
            &&& run("lsp.gotoImplementation"@) == ask(RequestView::Implementation)
            &&& run("lsp.gotoTypeDefinition"@) == ask(RequestView::TypeDefinition)
            &&& run("lsp.references"@) == ask(RequestView::References)
            &&& run("lsp.documentSymbols"@) == ask(RequestView::DocumentSymbols)
            &&& run("lsp.format"@) == ask(RequestView::Formatting)
        }),
{
    lemma_commands();
}

/// Renaming starts with the name under the caret; what is typed changes it, Enter asks for the rename
/// to it, and an empty name asks for nothing.
pub proof fn renaming_starts_with_the_name(
    name: Seq<char>,
    d: &Doc,
    word: (usize, usize),
    key: Key,
    c: char,
)
    requires
        word.0 <= word.1 <= d.size(),
    ensures
        commanded(name, "lsp.rename"@, true, Some(d), word) matches Some((n, out)) && n
            == d.chars@.subrange(word.0 as int, word.1 as int) && out.len() == 1,
        key.code == KeyCode::Char(c) && !key.ctrl && !key.alt ==> pressed(name, key).0 == name.push(
            c,
        ),
        key.code == KeyCode::Backspace && name.len() > 0 ==> pressed(name, key).0 == name.take(
            name.len() - 1,
        ),
        key.code == KeyCode::Enter && name.len() > 0 ==> pressed(name, key).1 == seq![
            EffectView::DismissPrompt,
            EffectView::Ask(RequestView::Rename(name)),
        ],
        key.code == KeyCode::Enter && name.len() == 0 ==> pressed(name, key).1 == seq![
            EffectView::DismissPrompt,
        ],
        key.code == KeyCode::Esc ==> pressed(name, key).1 == seq![EffectView::DismissPrompt],
{
    lemma_commands();
    assert(d.slice(word.0 as int, word.1 as int) =~= d.chars@.subrange(
        word.0 as int,
        word.1 as int,
    ));
    if name.len() > 0 {
        assert(name.drop_last() =~= name.take(name.len() - 1));
    }
}

} // verus!
