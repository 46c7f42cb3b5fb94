//! Hover: what a server says of a place, in a box.

use vstd::prelude::*;

use crate::effect::{effects_view, emit, no_effects, Effect, EffectView};

verus! {

/// Shows hovers.
pub struct HoverPlugin;

impl HoverPlugin {
    /// Show a hover that came from the server.
    pub fn on_hover(text: &str) -> (r: Vec<Effect>)
        ensures
            effects_view(r@) == seq![EffectView::ShowInfo(text@)],
    {
        let mut out: Vec<Effect> = no_effects();
        emit(&mut out, Effect::ShowInfo(text.to_owned()));
        out
    }
}

} // verus!
