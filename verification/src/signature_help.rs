//! Signature help: the parameters of a call while it is typed.

use vstd::prelude::*;

use crate::contribution::{Contributions, Offer};
use crate::doc::{opt_wf, Doc};
use crate::effect::{effects_view, emit, no_effects, Effect, EffectView};
use crate::protocol::{Request, RequestView};
use crate::text::{no_text, same};

verus! {

/// Whether a signature is shown.
pub struct SignatureHelpPlugin {
    pub open: bool,
}

/// The character before the caret.
pub open spec fn before_caret(d: Option<&Doc>) -> Option<char> {
    match d {
        Some(d) => if d.head > 0 {
            Some(d.chars@[d.head - 1])
        } else {
            None
        },
        None => None,
    }
}

/// The request that shows a text, or takes the last one away.
pub open spec fn shown(text: Seq<char>) -> Seq<EffectView> {
    seq![EffectView::SetStatus { item: "lsp.signature"@, text }]
}

/// The request for a signature, where there is a server.
pub open spec fn asks(lsp: bool) -> Seq<EffectView> {
    if lsp {
        seq![EffectView::Ask(RequestView::SignatureHelp)]
    } else {
        Seq::empty()
    }
}

/// What a change of the text or the caret does: a closing parenthesis takes the signature away, an
/// opening one or a comma asks for one, and while one is shown any change asks again.
pub open spec fn changed(open: bool, d: Option<&Doc>, lsp: bool) -> (bool, Seq<EffectView>) {
    let c = before_caret(d);
    if !lsp {
        (open, Seq::empty())
    } else if c == Some(')') {
        (false, shown(Seq::empty()))
    } else if c == Some('(') || c == Some(',') || open {
        (open, asks(true))
    } else {
        (open, Seq::empty())
    }
}

/// The request for a signature, where there is a server.
fn ask_if(lsp: bool) -> (r: Vec<Effect>)
    ensures
        effects_view(r@) == asks(lsp),
{
    let mut out: Vec<Effect> = no_effects();
    if lsp {
        emit(&mut out, Effect::Ask(Request::SignatureHelp));
    }
    out
}

/// The request that shows a text.
fn show(text: String) -> (r: Vec<Effect>)
    ensures
        effects_view(r@) == shown(text@),
{
    let mut out: Vec<Effect> = no_effects();
    emit(&mut out, Effect::SetStatus { item: "lsp.signature".to_owned(), text });
    out
}

/// What the plugin contributes.
pub open spec fn contributed() -> Offer {
    Offer::none()
        .command("lsp.signatureHelp"@, "Go: Signature Help"@)
        .keybinding("ctrl+shift+space"@, "lsp.signatureHelp"@)
}

impl SignatureHelpPlugin {
    /// What the plugin contributes.
    pub fn contributions() -> (r: Contributions)
        ensures
            r@ == contributed(),
    {
        Contributions::builder()
            .command("lsp.signatureHelp", "Go: Signature Help")
            .keybinding("ctrl+shift+space", "lsp.signatureHelp")
    }

    /// Nothing is shown.
    pub fn new() -> (r: SignatureHelpPlugin)
        ensures
            !r.open,
    {
        SignatureHelpPlugin { open: false }
    }

    /// Take the signature away.
    fn close(&mut self) -> (r: Vec<Effect>)
        ensures
            !final(self).open,
            effects_view(r@) == shown(Seq::empty()),
    {
        self.open = false;
        show(no_text())
    }

    /// Run a command; none where it is not this one's.
    pub fn run_command(&self, command_id: &str, lsp: bool) -> (r: Option<Vec<Effect>>)
        ensures
            r is Some == (command_id@ == "lsp.signatureHelp"@),
            r is Some ==> effects_view(r->0@) == asks(lsp),
    {
        if same(command_id, "lsp.signatureHelp") {
            Some(ask_if(lsp))
        } else {
            None
        }
    }

    /// Show a signature that came from the server, or take the last one away where there is none.
    pub fn on_signature(&mut self, text: Option<&str>) -> (r: Vec<Effect>)
        ensures
            final(self).open == text is Some,
            effects_view(r@) == match text {
                Some(t) => shown(t@),
                None => shown(Seq::empty()),
            },
    {
        match text {
            Some(t) => {
                self.open = true;
                show(t.to_owned())
            },
            None => self.close(),
        }
    }

    /// The active document's text or caret changed.
    pub fn on_change(&mut self, doc: Option<&Doc>, lsp: bool) -> (r: Vec<Effect>)
        requires
            opt_wf(doc),
        ensures
            final(self).open == changed(old(self).open, doc, lsp).0,
            effects_view(r@) == changed(old(self).open, doc, lsp).1,
    {
        if !lsp {
            return no_effects();
        }
        let c: Option<char> = match doc {
            Some(d) => {
                if d.head > 0 {
                    Some(d.chars[d.head - 1])
                } else {
                    None
                }
            },
            None => None,
        };
        match c {
            Some(')') => self.close(),
            Some('(') => ask_if(true),
            Some(',') => ask_if(true),
            _ => ask_if(self.open),
        }
    }

    /// Another document is active, or the document was read again.
    pub fn on_leave(&mut self) -> (r: Vec<Effect>)
        ensures
            !final(self).open,
            effects_view(r@) == if old(self).open {
                shown(Seq::empty())
            } else {
                Seq::empty()
            },
    {
        if self.open {
            self.close()
        } else {
            no_effects()
        }
    }
}

/// A closing parenthesis before the caret takes the signature away; an opening one and a comma ask for
/// one; another character asks again only while one is shown. Without a server nothing happens.
pub proof fn typing_a_call_asks_for_its_signature(open: bool, d: &Doc)
    requires
        0 < d.head <= d.size(),
    ensures
        ({
            let c = d.chars@[d.head - 1];
            let s = changed(open, Some(d), true);
            let asks = seq![EffectView::Ask(RequestView::SignatureHelp)];
            &&& c == ')' ==> !s.0 && s.1 == seq![
                EffectView::SetStatus { item: "lsp.signature"@, text: Seq::empty() },
            ]
            &&& c == '(' || c == ',' ==> s.0 == open && s.1 == asks
            &&& c != ')' && open ==> s.0 && s.1 == asks
            &&& c != ')' && c != '(' && c != ',' && !open ==> !s.0 && s.1.len() == 0
            &&& changed(open, Some(d), false) == (open, Seq::<EffectView>::empty())
        }),
{
}

} // verus!
