//! Inlay hints: types and parameter names, shown between the characters of a document.

use vstd::prelude::*;

use crate::annotation::{asked, lemma_counts, notes_are_shown_at_their_places, placed, Note};
use crate::effect::{effects_view, emit, no_effects, Effect, EffectView};
use crate::ui::{only_virtual, virtual_view, DecorationSet, VirtualText};

verus! {

/// A hint: where it is, what it says, and whether blanks go around it.
#[derive(Debug, PartialEq, Eq)]
pub struct InlayHint {
    pub line: u32,
    pub char16: u32,
    pub label: String,
    /// 1 for a type, 2 for a parameter.
    pub kind: u8,
    pub pad_left: bool,
    pub pad_right: bool,
}

pub struct HintView {
    pub line: u32,
    pub char16: u32,
    pub label: Seq<char>,
    pub kind: u8,
    pub pad_left: bool,
    pub pad_right: bool,
}

impl View for InlayHint {
    type V = HintView;

    open spec fn view(&self) -> HintView {
        HintView {
            line: self.line,
            char16: self.char16,
            label: self.label@,
            kind: self.kind,
            pad_left: self.pad_left,
            pad_right: self.pad_right,
        }
    }
}

pub open spec fn hints_view(v: Seq<InlayHint>) -> Seq<HintView> {
    v.map_values(|h: InlayHint| h@)
}

/// The style of a hint.
pub open spec fn scope_of(kind: u8) -> Seq<char> {
    if kind == 2 {
        "lsp.inlay.param"@
    } else {
        "lsp.inlay.type"@
    }
}

/// The style of a hint.
pub fn scope_for(kind: u8) -> (r: &'static str)
    ensures
        r@ == scope_of(kind),
{
    if kind == 2 {
        "lsp.inlay.param"
    } else {
        "lsp.inlay.type"
    }
}

/// Hints as they are noted.
pub open spec fn hint_notes(hints: Seq<HintView>) -> Seq<Note> {
    hints.map_values(
        |h: HintView|
            Note {
                line: h.line,
                char16: h.char16,
                text: h.label,
                style: scope_of(h.kind),
                pad_left: h.pad_left,
                pad_right: h.pad_right,
            },
    )
}

/// The inlay hints of documents.
pub struct InlayHintsPlugin;

impl InlayHintsPlugin {
    /// The positions that hints need, in order.
    pub fn positions(hints: &[InlayHint]) -> (r: Vec<(u32, u32)>)
        ensures
            r@ == asked(hint_notes(hints_view(hints@)), hints@.len() as int),
    {
        let mut out: Vec<(u32, u32)> = Vec::new();
        let mut i: usize = 0;
        assert(out@ =~= Seq::empty());
        while i < hints.len()
            invariant
                i <= hints.len(),
                out@ == asked(hint_notes(hints_view(hints@)), i as int),
            decreases hints.len() - i,
        {
            assert(hints_view(hints@)[i as int] == hints@[i as int]@);
            if !hints[i].label.as_str().is_empty() {
                out.push((hints[i].line, hints[i].char16));
            }
            i += 1;
        }
        out
    }

    /// Show a document's hints. `at` are their positions in the text.
    pub fn publish(hints: &[InlayHint], at: &[usize]) -> (r: Vec<Effect>)
        requires
            at@.len() == asked(hint_notes(hints_view(hints@)), hints@.len() as int).len(),
        ensures
            effects_view(r@) == seq![
                if hints@.len() == 0 {
                    EffectView::ClearDecorations("lsp.inlay"@)
                } else {
                    EffectView::SetDecorations {
                        layer: "lsp.inlay"@,
                        set: only_virtual(placed(hint_notes(hints_view(hints@)), at@, hints@.len() as int)),
                    }
                },
            ],
    {
        let mut out: Vec<Effect> = no_effects();
        if hints.len() == 0 {
            emit(&mut out, Effect::ClearDecorations("lsp.inlay".to_owned()));
            return out;
        }
        let ghost hv = hint_notes(hints_view(hints@));
        let mut texts: Vec<VirtualText> = Vec::new();
        let mut i: usize = 0;
        assert(virtual_view(texts@) =~= Seq::empty());
        while i < hints.len()
            invariant
                i <= hints.len(),
                hv == hint_notes(hints_view(hints@)),
                at@.len() == asked(hv, hints@.len() as int).len(),
                virtual_view(texts@) == placed(hv, at@, i as int),
                texts@.len() == placed(hv, at@, i as int).len(),
            decreases hints.len() - i,
        {
            let h: &InlayHint = &hints[i];
            assert(hints_view(hints@)[i as int] == h@);
            if !h.label.as_str().is_empty() {
                proof {
                    lemma_counts(hv, at@, i + 1, hints@.len() as int);
                }
                let t = VirtualText {
                    offset: at[texts.len()],
                    text: h.label.clone(),
                    style: scope_for(h.kind).to_owned(),
                    pad_left: h.pad_left,
                    pad_right: h.pad_right,
                };
                let ghost before = texts@;
                texts.push(t);
                assert(virtual_view(texts@) =~= virtual_view(before).push(t@));
            }
            i += 1;
        }
        emit(
            &mut out,
            Effect::SetDecorations {
                layer: "lsp.inlay".to_owned(),
                set: DecorationSet::virtual_text(texts),
            },
        );
        out
    }
}

/// A hint with a label is shown at the position that was found for its own place, with its label and
/// the blanks that it asks for.
pub proof fn hints_are_shown_at_their_places(hints: Seq<HintView>, at: Seq<usize>, i: int)
    requires
        0 <= i < hints.len(),
        hints[i].label.len() > 0,
    ensures
        ({
            let notes = hint_notes(hints);
            let n = hints.len() as int;
            exists|k: int|
                0 <= k < asked(notes, n).len() && #[trigger] asked(notes, n)[k] == (
                    hints[i].line,
                    hints[i].char16,
                ) && placed(notes, at, n)[k].offset == at[k] && placed(notes, at, n)[k].text
                    == hints[i].label && placed(notes, at, n)[k].pad_left == hints[i].pad_left
                    && placed(notes, at, n)[k].pad_right == hints[i].pad_right
        }),
{
    let notes = hint_notes(hints);
    notes_are_shown_at_their_places(notes, at, hints.len() as int, i);
    let k = asked(notes, i).len() as int;
    assert(asked(notes, hints.len() as int)[k] == (hints[i].line, hints[i].char16));
}

} // verus!
