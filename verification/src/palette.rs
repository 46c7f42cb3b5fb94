//! The command palette, opening a file by its name, and going to a line.

use vstd::prelude::*;

use crate::contribution::{commands_view, CommandInfo, Contributions, Offer};
use crate::doc::{lesser, min_of, minus, minus_of, opt_wf, Doc};
use crate::effect::{effects_view, emit, no_effects, Effect, EffectView};
use crate::key::{Key, KeyCode};
use crate::number::{is_digit, parse_usize, parsed};
use crate::path::{show, shown};
use crate::text::{no_text, same, texts_of, trim, trimmed};
use crate::ui::{
    entry_prompt, items_view, PickerItem, PickerRequest, PickerView, Prompt, PromptView,
};

verus! {

/// The digits typed so far, while a line is asked for.
pub struct PalettePlugin {
    pub goto_line: String,
}

/// The prompt for a line.
pub open spec fn goto_prompt(digits: Seq<char>) -> PromptView {
    entry_prompt(
        "palette"@,
        "gotoLine"@,
        "Go to Line"@,
        "Line"@,
        digits,
        "[Enter] Go   [Esc] Cancel"@,
        None,
    )
}

/// The rows of files: the path, and the path as it is shown.
pub open spec fn file_rows(root: Seq<char>, files: Seq<Seq<char>>) -> Seq<(Seq<char>, Seq<char>)> {
    files.map_values(|p: Seq<char>| (p, shown(root, p)))
}

/// The picker of files and commands.
pub open spec fn opened(
    root: Seq<char>,
    files: Seq<Seq<char>>,
    commands: Seq<(Seq<char>, Seq<char>)>,
    in_commands: bool,
) -> EffectView {
    EffectView::OpenPicker(
        PickerView {
            owner: "palette"@,
            token: "open"@,
            title: "Go to File"@,
            items: file_rows(root, files),
            commands,
            start_in_commands: in_commands,
        },
    )
}

/// What a command does to the typed digits, and what it asks for; nothing where it is not one of
/// these.
pub open spec fn commanded(
    digits: Seq<char>,
    command: Seq<char>,
    root: Seq<char>,
    files: Seq<Seq<char>>,
    commands: Seq<(Seq<char>, Seq<char>)>,
) -> Option<(Seq<char>, EffectView)> {
    if command == "view.gotoLine"@ {
        Some((Seq::empty(), EffectView::SetPrompt(goto_prompt(Seq::empty()))))
    } else if command == "view.commandPalette"@ {
        Some((digits, opened(root, files, commands, true)))
    } else if command == "view.quickOpen"@ {
        Some((digits, opened(root, files, commands, false)))
    } else {
        None
    }
}

/// Where a line that was typed starts, counted from one and cut down to the document.
pub open spec fn line_start(d: &Doc, digits: Seq<char>) -> Option<int> {
    match parsed(trimmed(digits), usize::MAX as int) {
        Some(line) => Some(d.start(lesser(minus(line, 1), d.last()))),
        None => None,
    }
}

/// What a key does to the typed digits, and what it asks for.
pub open spec fn pressed(digits: Seq<char>, key: Key, d: Option<&Doc>) -> (
    Seq<char>,
    Seq<EffectView>,
) {
    match key.code {
        KeyCode::Esc => (digits, seq![EffectView::DismissPrompt]),
        KeyCode::Enter => (
            digits,
            match d {
                Some(d) => match line_start(d, digits) {
                    Some(p) => seq![EffectView::DismissPrompt, EffectView::Caret(p)],
                    None => seq![EffectView::DismissPrompt],
                },
                None => seq![EffectView::DismissPrompt],
            },
        ),
        KeyCode::Backspace => {
            let n = if digits.len() == 0 {
                digits
            } else {
                digits.drop_last()
            };
            (n, seq![EffectView::SetPrompt(goto_prompt(n))])
        },
        KeyCode::Char(c) => if is_digit(c) {
            (digits.push(c), seq![EffectView::SetPrompt(goto_prompt(digits.push(c)))])
        } else {
            (digits, Seq::empty())
        },
        _ => (digits, Seq::empty()),
    }
}

/// Whether one of the commands has the id.
pub open spec fn is_command(commands: Seq<(Seq<char>, Seq<char>)>, id: Seq<char>) -> bool {
    exists|i: int| 0 <= i < commands.len() && (#[trigger] commands[i]).0 == id
}

/// What choosing an item asks for: a command is run, a file is opened.
pub open spec fn picked(commands: Seq<(Seq<char>, Seq<char>)>, id: Seq<char>) -> EffectView {
    if is_command(commands, id) {
        EffectView::Execute(id)
    } else {
        EffectView::OpenPath(id)
    }
}

/// What the plugin contributes.
pub open spec fn contributed() -> Offer {
    Offer::none()
        .command("view.commandPalette"@, "Go: Show All Commands"@)
        .command("view.quickOpen"@, "Go to File…"@)
        .command("view.gotoLine"@, "Go to Line…"@)
        .keybinding("ctrl+shift+p"@, "view.commandPalette"@)
        .keybinding("ctrl+p"@, "view.quickOpen"@)
        .keybinding("ctrl+g"@, "view.gotoLine"@)
}

impl PalettePlugin {
    /// What the plugin contributes.
    pub fn contributions() -> (r: Contributions)
        ensures
            r@ == contributed(),
    {
        Contributions::builder()
            .command("view.commandPalette", "Go: Show All Commands")
            .command("view.quickOpen", "Go to File…")
            .command("view.gotoLine", "Go to Line…")
            .keybinding("ctrl+shift+p", "view.commandPalette")
            .keybinding("ctrl+p", "view.quickOpen")
            .keybinding("ctrl+g", "view.gotoLine")
    }

    /// No digits.
    pub fn new() -> (r: PalettePlugin)
        ensures
            r.goto_line@ == Seq::<char>::empty(),
    {
        PalettePlugin { goto_line: no_text() }
    }

    /// The prompt for a line.
    fn prompt(&self) -> (r: Effect)
        ensures
            r@ == EffectView::SetPrompt(goto_prompt(self.goto_line@)),
    {
        Effect::SetPrompt(
            Prompt::entry(
                "palette",
                "gotoLine",
                "Go to Line".to_owned(),
                "Line",
                self.goto_line.clone(),
                "[Enter] Go   [Esc] Cancel",
                None,
            ),
        )
    }

    /// Whether a command lists the project's files.
    pub fn lists_files(command_id: &str) -> (r: bool)
        ensures
            r == (command_id@ == "view.commandPalette"@ || command_id@ == "view.quickOpen"@),
    {
        same(command_id, "view.commandPalette") || same(command_id, "view.quickOpen")
    }

    /// Run a command; none where it is not one of these. `files` are the paths of the project's
    /// files, which only a command that lists them needs, and `commands` are all commands.
    pub fn run_command(
        &mut self,
        command_id: &str,
        root: &str,
        files: &[String],
        commands: &[CommandInfo],
    ) -> (r: Option<Vec<Effect>>)
        ensures
            match commanded(
                old(self).goto_line@,
                command_id@,
                root@,
                texts_of(files@),
                commands_view(commands@),
            ) {
                Some((digits, out)) => r is Some && final(self).goto_line@ == digits
                    && effects_view(r->0@) == seq![out],
                None => r is None && *final(self) == *old(self),
            },
    {
        let mut out: Vec<Effect> = no_effects();
        if same(command_id, "view.gotoLine") {
            self.goto_line = no_text();
            emit(&mut out, self.prompt());
            return Some(out);
        }
        let in_commands: bool = if same(command_id, "view.commandPalette") {
            true
        } else if same(command_id, "view.quickOpen") {
            false
        } else {
            return None;
        };
        let mut items: Vec<PickerItem> = Vec::new();
        let mut i: usize = 0;
        while i < files.len()
            invariant
                i <= files.len(),
                items@.len() == i,
                forall|k: int|
                    0 <= k < i ==> ((#[trigger] items@[k]).id@, items@[k].label@) == file_rows(
                        root@,
                        texts_of(files@),
                    )[k],
            decreases files.len() - i,
        {
            assert(texts_of(files@)[i as int] == files@[i as int]@);
            items.push(
                PickerItem { id: files[i].clone(), label: show(root, files[i].as_str()) },
            );
            i += 1;
        }
        assert(items_view(items@) =~= file_rows(root@, texts_of(files@)));
        let mut rows: Vec<PickerItem> = Vec::new();
        let mut j: usize = 0;
        while j < commands.len()
            invariant
                j <= commands.len(),
                rows@.len() == j,
                forall|k: int|
                    0 <= k < j ==> ((#[trigger] rows@[k]).id@, rows@[k].label@) == commands_view(
                        commands@,
                    )[k],
            decreases commands.len() - j,
        {
            rows.push(
                PickerItem { id: commands[j].id.clone(), label: commands[j].title.clone() },
            );
            j += 1;
        }
        assert(items_view(rows@) =~= commands_view(commands@));
        emit(
            &mut out,
            Effect::OpenPicker(
                PickerRequest {
                    owner: "palette".to_owned(),
                    token: "open".to_owned(),
                    title: "Go to File".to_owned(),
                    items,
                    commands: rows,
                    start_in_commands: in_commands,
                },
            ),
        );
        Some(out)
    }

    /// Run the command that was chosen, or open the file.
    pub fn on_picker_activate(&self, item_id: &str, commands: &[CommandInfo]) -> (r: Vec<Effect>)
        ensures
            effects_view(r@) == seq![picked(commands_view(commands@), item_id@)],
    {
        let ghost cv = commands_view(commands@);
        let mut out: Vec<Effect> = no_effects();
        let mut i: usize = 0;
        while i < commands.len()
            invariant
                i <= commands.len(),
                cv == commands_view(commands@),
                effects_view(out@) == Seq::<EffectView>::empty(),
                forall|k: int| 0 <= k < i ==> (#[trigger] cv[k]).0 != item_id@,
            decreases commands.len() - i,
        {
            assert(cv[i as int].0 == commands@[i as int].id@);
            if same(commands[i].id.as_str(), item_id) {
                emit(&mut out, Effect::Execute(item_id.to_owned()));
                return out;
            }
            i += 1;
        }
        emit(&mut out, Effect::OpenPath(item_id.to_owned()));
        out
    }

    /// Handle a key while a line is asked for; none where another prompt has the keys.
    pub fn on_prompt_key(&mut self, prompt_id: &str, key: Key, doc: Option<&Doc>) -> (r: Option<
        Vec<Effect>,
    >)
        requires
            opt_wf(doc),
        ensures
            r is Some == (prompt_id@ == "gotoLine"@),
            r is None ==> *final(self) == *old(self),
            r is Some ==> final(self).goto_line@ == pressed(old(self).goto_line@, key, doc).0
                && effects_view(r->0@) == pressed(old(self).goto_line@, key, doc).1,
    {
        if !same(prompt_id, "gotoLine") {
            return None;
        }
        let mut out: Vec<Effect> = no_effects();
        match key.code {
            KeyCode::Esc => emit(&mut out, Effect::DismissPrompt),
            KeyCode::Enter => {
                emit(&mut out, Effect::DismissPrompt);
                let target: Option<usize> = parse_usize(trim(self.goto_line.as_str()).as_str());
                if let (Some(line), Some(d)) = (target, doc) {
                    let l: usize = min_of(minus_of(line, 1), d.lines.len() - 1);
                    emit(&mut out, Effect::Caret(d.line_to_char(l)));
                }
            },
            KeyCode::Backspace => {
                let _ = self.goto_line.pop();
                emit(&mut out, self.prompt());
            },
            KeyCode::Char(c) => {
                if '0' <= c && c <= '9' {
                    self.goto_line.push(c);
                    emit(&mut out, self.prompt());
                }
            },
            _ => {},
        }
        Some(out)
    }
}

/// Going to a line stays within the document.
pub proof fn lines_stay_within_the_document(d: &Doc, digits: Seq<char>)
    requires
        d.wf(),
    ensures
        match line_start(d, digits) {
            Some(p) => 0 <= p <= d.size(),
            None => true,
        },
{
    match parsed(trimmed(digits), usize::MAX as int) {
        Some(line) => {
            let l = lesser(minus(line, 1), d.last());
            assert(d.lines@[l].start + d.lines@[l].len <= d.chars@.len());
        },
        None => {},
    }
}

/// The palette lists every command and every file, under its path; choosing an item runs exactly that
/// command, or opens exactly that file.
pub proof fn items_do_what_they_name(
    digits: Seq<char>,
    root: Seq<char>,
    files: Seq<Seq<char>>,
    commands: Seq<(Seq<char>, Seq<char>)>,
    i: int,
)
    ensures
        ({
            let p = commanded(digits, "view.commandPalette"@, root, files, commands).unwrap();
            let q = commanded(digits, "view.quickOpen"@, root, files, commands).unwrap();
            &&& p.0 == digits
            &&& q.0 == digits
            &&& p.1 matches EffectView::OpenPicker(v) && v.commands == commands && v.items.len()
                == files.len() && v.start_in_commands
            &&& q.1 matches EffectView::OpenPicker(v) && v.commands == commands && v.items.len()
                == files.len() && !v.start_in_commands && (0 <= i < files.len() ==> v.items[i].0
                == files[i])
        }),
        0 <= i < commands.len() ==> picked(commands, commands[i].0) == EffectView::Execute(
            commands[i].0,
        ),
        0 <= i < files.len() && !is_command(commands, files[i]) ==> picked(commands, files[i])
            == EffectView::OpenPath(files[i]),
{
    lemma_commands();
}

proof fn lemma_commands()
    ensures
        "view.gotoLine"@ != "view.commandPalette"@,
        "view.gotoLine"@ != "view.quickOpen"@,
        "view.commandPalette"@ != "view.quickOpen"@,
{
    reveal_strlit("view.gotoLine");
    reveal_strlit("view.commandPalette");
    reveal_strlit("view.quickOpen");
    assert("view.gotoLine"@.len() == 13 && "view.quickOpen"@.len() == 14);
    assert("view.commandPalette"@.len() == 19);
}

/// Only digits are typed for a line, backspace takes the last one off, and Enter goes to the start of
/// the line that they name, counted from one; the prompt is asked for afresh each time.
pub proof fn a_line_is_typed_and_gone_to(
    digits: Seq<char>,
    key: Key,
    d: &Doc,
    c: char,
    n: int,
    root: Seq<char>,
    files: Seq<Seq<char>>,
    commands: Seq<(Seq<char>, Seq<char>)>,
)
    requires
        d.wf(),
        parsed(trimmed(digits), usize::MAX as int) == Some(n),
        1 <= n,
    ensures
        key.code == KeyCode::Enter && n <= d.count() ==> pressed(digits, key, Some(d)).1 == seq![
            EffectView::DismissPrompt,
            EffectView::Caret(d.start(n - 1)),
        ],
        key.code == KeyCode::Enter && n > d.count() ==> pressed(digits, key, Some(d)).1 == seq![
            EffectView::DismissPrompt,
            EffectView::Caret(d.start(d.count() - 1)),
        ],
        key.code == KeyCode::Char(c) && '0' <= c <= '9' ==> pressed(digits, key, Some(d)).0
            == digits.push(c),
        key.code == KeyCode::Char(c) && !('0' <= c <= '9') ==> pressed(digits, key, Some(d)).0
            == digits && pressed(digits, key, Some(d)).1.len() == 0,
        key.code == KeyCode::Backspace && digits.len() > 0 ==> pressed(digits, key, Some(d)).0
            == digits.take(digits.len() - 1),
        key.code == KeyCode::Esc ==> pressed(digits, key, Some(d)).1 == seq![
            EffectView::DismissPrompt,
        ],
        commanded(digits, "view.gotoLine"@, root, files, commands) matches Some((fresh, _))
            && fresh.len() == 0,
{
    lemma_commands();
    if digits.len() > 0 {
        assert(digits.drop_last() =~= digits.take(digits.len() - 1));
    }
}

} // verus!
