//! Code lenses: what a server says of a place, shown before the code there.

use vstd::prelude::*;

use crate::annotation::{asked, lemma_counts, notes_are_shown_at_their_places, placed, Note};
use crate::effect::{effects_view, emit, no_effects, Effect, EffectView};
use crate::ui::{only_virtual, virtual_view, DecorationSet, VirtualText};

verus! {

/// A lens: where it is, and what it says.
#[derive(Debug, PartialEq, Eq)]
pub struct CodeLens {
    pub line: u32,
    pub char16: u32,
    pub title: String,
}

pub struct LensView {
    pub line: u32,
    pub char16: u32,
    pub title: Seq<char>,
}

impl View for CodeLens {
    type V = LensView;

    open spec fn view(&self) -> LensView {
        LensView { line: self.line, char16: self.char16, title: self.title@ }
    }
}

pub open spec fn lenses_view(v: Seq<CodeLens>) -> Seq<LensView> {
    v.map_values(|l: CodeLens| l@)
}

/// Lenses as they are noted, each with a blank behind it.
pub open spec fn lens_notes(lenses: Seq<LensView>) -> Seq<Note> {
    lenses.map_values(
        |l: LensView|
            Note {
                line: l.line,
                char16: l.char16,
                text: l.title,
                style: "lsp.lens"@,
                pad_left: false,
                pad_right: true,
            },
    )
}

/// The code lenses of documents.
pub struct CodeLensPlugin;

impl CodeLensPlugin {
    /// The positions that lenses need, in order.
    pub fn positions(lenses: &[CodeLens]) -> (r: Vec<(u32, u32)>)
        ensures
            r@ == asked(lens_notes(lenses_view(lenses@)), lenses@.len() as int),
    {
        let mut out: Vec<(u32, u32)> = Vec::new();
        let mut i: usize = 0;
        assert(out@ =~= Seq::empty());
        while i < lenses.len()
            invariant
                i <= lenses.len(),
                out@ == asked(lens_notes(lenses_view(lenses@)), i as int),
            decreases lenses.len() - i,
        {
            assert(lenses_view(lenses@)[i as int] == lenses@[i as int]@);
            if !lenses[i].title.as_str().is_empty() {
                out.push((lenses[i].line, lenses[i].char16));
            }
            i += 1;
        }
        out
    }

    /// Show a document's lenses. `at` are their positions in the text.
    pub fn publish(lenses: &[CodeLens], at: &[usize]) -> (r: Vec<Effect>)
        requires
            at@.len() == asked(lens_notes(lenses_view(lenses@)), lenses@.len() as int).len(),
        ensures
            effects_view(r@) == seq![
                if lenses@.len() == 0 {
                    EffectView::ClearDecorations("lsp.lens"@)
                } else {
                    EffectView::SetDecorations {
                        layer: "lsp.lens"@,
                        set: only_virtual(placed(lens_notes(lenses_view(lenses@)), at@, lenses@.len() as int)),
                    }
                },
            ],
    {
        let mut out: Vec<Effect> = no_effects();
        if lenses.len() == 0 {
            emit(&mut out, Effect::ClearDecorations("lsp.lens".to_owned()));
            return out;
        }
        let ghost lv = lens_notes(lenses_view(lenses@));
        let mut texts: Vec<VirtualText> = Vec::new();
        let mut i: usize = 0;
        assert(virtual_view(texts@) =~= Seq::empty());
        while i < lenses.len()
            invariant
                i <= lenses.len(),
                lv == lens_notes(lenses_view(lenses@)),
                at@.len() == asked(lv, lenses@.len() as int).len(),
                virtual_view(texts@) == placed(lv, at@, i as int),
                texts@.len() == placed(lv, at@, i as int).len(),
            decreases lenses.len() - i,
        {
            let l: &CodeLens = &lenses[i];
            assert(lenses_view(lenses@)[i as int] == l@);
            if !l.title.as_str().is_empty() {
                proof {
                    lemma_counts(lv, at@, i + 1, lenses@.len() as int);
                }
                let t = VirtualText {
                    offset: at[texts.len()],
                    text: l.title.clone(),
                    style: "lsp.lens".to_owned(),
                    pad_left: false,
                    pad_right: true,
                };
                let ghost before = texts@;
                texts.push(t);
                assert(virtual_view(texts@) =~= virtual_view(before).push(t@));
            }
            i += 1;
        }
        emit(
            &mut out,
            Effect::SetDecorations {
                layer: "lsp.lens".to_owned(),
                set: DecorationSet::virtual_text(texts),
            },
        );
        out
    }
}

/// A lens with a title is shown at the position that was found for its own place, with its title.
pub proof fn lenses_are_shown_at_their_places(lenses: Seq<LensView>, at: Seq<usize>, i: int)
    requires
        0 <= i < lenses.len(),
        lenses[i].title.len() > 0,
    ensures
        ({
            let notes = lens_notes(lenses);
            let n = lenses.len() as int;
            exists|k: int|
                0 <= k < asked(notes, n).len() && #[trigger] asked(notes, n)[k] == (
                    lenses[i].line,
                    lenses[i].char16,
                ) && placed(notes, at, n)[k].offset == at[k] && placed(notes, at, n)[k].text
                    == lenses[i].title
        }),
{
    let notes = lens_notes(lenses);
    notes_are_shown_at_their_places(notes, at, lenses.len() as int, i);
    let k = asked(notes, i).len() as int;
    assert(asked(notes, lenses.len() as int)[k] == (lenses[i].line, lenses[i].char16));
}

} // verus!
