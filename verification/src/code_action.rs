//! Code actions: the choices that a server offers at the caret, and what choosing one does.

use vstd::prelude::*;

use crate::completion::state::command_view;
use crate::contribution::{Contributions, MenuGroup, MenuWhen, Offer};
use crate::effect::{effects_view, emit, no_effects, Effect, EffectView};
use crate::format::{decimal, decimal_of};
use crate::number::{parse_usize, parsed};
use crate::protocol::{EditView, Request, RequestView, ServerCommand, WorkspaceEdit};
use crate::text::same;
use crate::ui::{items_view, PickerItem, PickerRequest, PickerView};

verus! {

/// An action: its title, its changes and its command.
#[derive(Debug, PartialEq, Eq)]
pub struct CodeAction {
    pub title: String,
    pub edit: WorkspaceEdit,
    pub command: Option<ServerCommand>,
}

pub struct ActionView {
    pub title: Seq<char>,
    pub edit: EditView,
    pub command: Option<(Seq<char>, Seq<char>)>,
}

impl View for CodeAction {
    type V = ActionView;

    open spec fn view(&self) -> ActionView {
        ActionView {
            title: self.title@,
            edit: self.edit@,
            command: command_view(self.command),
        }
    }
}

pub open spec fn actions_view(v: Seq<CodeAction>) -> Seq<ActionView> {
    v.map_values(|a: CodeAction| a@)
}

/// The rows of a picker: each with its number as its id.
pub open spec fn numbered(labels: Seq<Seq<char>>) -> Seq<(Seq<char>, Seq<char>)> {
    Seq::new(labels.len(), |i: int| (decimal(i as nat), labels[i]))
}

pub open spec fn titles(v: Seq<ActionView>) -> Seq<Seq<char>> {
    v.map_values(|a: ActionView| a.title)
}

/// The requests of an action: its changes first, then its command.
pub open spec fn performed(a: ActionView) -> Seq<EffectView> {
    let first = if a.edit.len() > 0 {
        seq![EffectView::ApplyWorkspaceEdit(a.edit)]
    } else {
        Seq::empty()
    };
    match a.command {
        Some((command, arguments)) => first.push(
            EffectView::Ask(RequestView::ExecuteCommand { command, arguments }),
        ),
        None => first,
    }
}

/// What choosing an item does: it performs the action whose number is the item's id.
pub open spec fn chosen(actions: Seq<ActionView>, item: Seq<char>) -> Seq<EffectView> {
    match parsed(item, usize::MAX as int) {
        Some(i) => if i < actions.len() {
            performed(actions[i])
        } else {
            Seq::empty()
        },
        None => Seq::empty(),
    }
}

/// The actions that the picker shows.
pub struct CodeActionPlugin {
    pub actions: Vec<CodeAction>,
}

/// What the plugin contributes.
pub open spec fn contributed() -> Offer {
    Offer::none()
        .command("lsp.codeAction"@, "Refactor: Code Action…"@)
        .keybinding("ctrl+."@, "lsp.codeAction"@)
        .menu_item(
            "lsp.codeAction"@,
            "Code Action / Quick Fix…"@,
            MenuGroup::Refactor,
            MenuWhen::LspEnabled,
        )
}

impl CodeActionPlugin {
    /// What the plugin contributes.
    pub fn contributions() -> (r: Contributions)
        ensures
            r@ == contributed(),
    {
        Contributions::builder()
            .command("lsp.codeAction", "Refactor: Code Action…")
            .keybinding("ctrl+.", "lsp.codeAction")
            .menu_item(
                "lsp.codeAction",
                "Code Action / Quick Fix…",
                MenuGroup::Refactor,
                MenuWhen::LspEnabled,
            )
    }

    /// No actions.
    pub fn new() -> (r: CodeActionPlugin)
        ensures
            actions_view(r.actions@) == Seq::<ActionView>::empty(),
    {
        let r = CodeActionPlugin { actions: Vec::new() };
        assert(actions_view(r.actions@) =~= Seq::empty());
        r
    }

    /// Run a command; none where it is not this one's.
    pub fn run_command(&self, command_id: &str, lsp: bool) -> (r: Option<Vec<Effect>>)
        ensures
            r is Some == (command_id@ == "lsp.codeAction"@),
            r is Some ==> effects_view(r->0@) == if lsp {
                seq![EffectView::Ask(RequestView::CodeAction)]
            } else {
                Seq::empty()
            },
    {
        if same(command_id, "lsp.codeAction") {
            let mut out: Vec<Effect> = no_effects();
            if lsp {
                emit(&mut out, Effect::Ask(Request::CodeAction));
            }
            Some(out)
        } else {
            None
        }
    }

    /// Offer actions that came from the server.
    pub fn on_actions(&mut self, actions: Vec<CodeAction>) -> (r: Vec<Effect>)
        ensures
            actions_view(final(self).actions@) == actions_view(actions@),
            effects_view(r@) == seq![
                if actions@.len() == 0 {
                    EffectView::Notify("No code actions available"@)
                } else {
                    EffectView::OpenPicker(
                        PickerView {
                            owner: "code-action"@,
                            token: "actions"@,
                            title: "Code Actions"@,
                            items: numbered(titles(actions_view(actions@))),
                            commands: Seq::empty(),
                            start_in_commands: false,
                        },
                    )
                },
            ],
    {
        let mut out: Vec<Effect> = no_effects();
        if actions.len() == 0 {
            self.actions = actions;
            emit(&mut out, Effect::Notify("No code actions available".to_owned()));
            return out;
        }
        let mut items: Vec<PickerItem> = Vec::new();
        let ghost labels = titles(actions_view(actions@));
        let mut i: usize = 0;
        while i < actions.len()
            invariant
                i <= actions.len(),
                labels == titles(actions_view(actions@)),
                items@.len() == i,
                forall|k: int|
                    0 <= k < i ==> ((#[trigger] items@[k]).id@, items@[k].label@) == numbered(
                        labels,
                    )[k],
            decreases actions.len() - i,
        {
            assert(labels[i as int] == actions@[i as int].title@);
            items.push(
                PickerItem { id: decimal_of(i as u64), label: actions[i].title.clone() },
            );
            i += 1;
        }
        assert(items_view(items@) =~= numbered(labels));
        let none: Vec<PickerItem> = Vec::new();
        assert(items_view(none@) =~= Seq::empty());
        self.actions = actions;
        emit(
            &mut out,
            Effect::OpenPicker(
                PickerRequest {
                    owner: "code-action".to_owned(),
                    token: "actions".to_owned(),
                    title: "Code Actions".to_owned(),
                    items,
                    commands: none,
                    start_in_commands: false,
                },
            ),
        );
        out
    }

    /// Perform the action that was chosen.
    pub fn on_picker_activate(&self, token: &str, item_id: &str) -> (r: Vec<Effect>)
        ensures
            effects_view(r@) == if token@ == "actions"@ {
                chosen(actions_view(self.actions@), item_id@)
            } else {
                Seq::empty()
            },
    {
        let mut out: Vec<Effect> = no_effects();
        if !same(token, "actions") {
            return out;
        }
        if let Some(i) = parse_usize(item_id) {
            if i < self.actions.len() {
                let a: &CodeAction = &self.actions[i];
                assert(actions_view(self.actions@)[i as int] == a@);
                assert(a@.edit.len() == a.edit.changes@.len());
                if a.edit.changes.len() > 0 {
                    emit(&mut out, Effect::ApplyWorkspaceEdit(a.edit.copy()));
                }
                if let Some(c) = &a.command {
                    emit(
                        &mut out,
                        Effect::Ask(
                            Request::ExecuteCommand(
                                ServerCommand {
                                    command: c.command.clone(),
                                    arguments: c.arguments.clone(),
                                },
                            ),
                        ),
                    );
                }
                assert(effects_view(out@) =~= performed(a@));
            }
        }
        out
    }
}

/// Choosing a row performs the action that the row shows.
pub proof fn rows_perform_their_actions(actions: Seq<ActionView>, i: int)
    requires
        0 <= i < actions.len() <= usize::MAX,
    ensures
        chosen(actions, numbered(titles(actions))[i].0) == performed(actions[i]),
{
    crate::number::decimals_read_back(i as nat, usize::MAX as int);
}

/// An action's changes are made before its command is run, and it does nothing that it does not hold.
pub proof fn changes_come_before_the_command(a: ActionView, command: Seq<char>, arguments: Seq<char>)
    requires
        a.command == Some((command, arguments)),
        a.edit.len() > 0,
    ensures
        performed(a) == seq![
            EffectView::ApplyWorkspaceEdit(a.edit),
            EffectView::Ask(RequestView::ExecuteCommand { command, arguments }),
        ],
        performed(ActionView { command: None, ..a }) == seq![
            EffectView::ApplyWorkspaceEdit(a.edit),
        ],
        performed(ActionView { edit: Seq::empty(), ..a }) == seq![
            EffectView::Ask(RequestView::ExecuteCommand { command, arguments }),
        ],
{
}

} // verus!
