//! Rename: the changes that a server answers a rename with.

use vstd::prelude::*;

use crate::effect::{effects_view, emit, no_effects, Effect, EffectView};
use crate::protocol::WorkspaceEdit;

verus! {

/// Applies renames.
pub struct RenamePlugin;

impl RenamePlugin {
    /// Apply the changes that came from the server.
    pub fn on_workspace_edit(edit: &WorkspaceEdit) -> (r: Vec<Effect>)
        ensures
            effects_view(r@) == seq![EffectView::ApplyWorkspaceEdit(edit@)],
    {
        let mut out: Vec<Effect> = no_effects();
        emit(&mut out, Effect::ApplyWorkspaceEdit(edit.copy()));
        out
    }
}

} // verus!
