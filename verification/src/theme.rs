//! The switch between the light and the dark theme.

use vstd::prelude::*;

use crate::contribution::{Contributions, Offer};
use crate::effect::{effects_view, emit, no_effects, Effect, EffectView};
use crate::text::same;

verus! {

/// Switches the theme.
pub struct ThemePlugin;

/// What the plugin contributes.
pub open spec fn contributed() -> Offer {
    Offer::none()
        .command("view.toggleTheme"@, "View: Toggle Light/Dark Theme"@)
}

impl ThemePlugin {
    /// What the plugin contributes.
    pub fn contributions() -> (r: Contributions)
        ensures
            r@ == contributed(),
    {
        Contributions::builder()
            .command("view.toggleTheme", "View: Toggle Light/Dark Theme")
    }

    /// Run a command; none where it is not the theme's.
    pub fn run_command(command_id: &str) -> (r: Option<Vec<Effect>>)
        ensures
            r is Some == (command_id@ == "view.toggleTheme"@),
            r is Some ==> effects_view(r->0@) == seq![EffectView::ToggleTheme],
    {
        if same(command_id, "view.toggleTheme") {
            let mut out: Vec<Effect> = no_effects();
            emit(&mut out, Effect::ToggleTheme);
            Some(out)
        } else {
            None
        }
    }
}

} // verus!
