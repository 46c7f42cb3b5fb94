//! Document highlights: the occurrences of the name that the caret is on.

use vstd::prelude::*;

use crate::completion::plugin::{is_ident, is_name};
use crate::doc::{greater, max_of, opt_wf, Doc};
use crate::effect::{effects_view, emit, no_effects, Effect, EffectView};
use crate::protocol::{Request, RequestView};
use crate::ui::{decorations_view, only_spans, Decoration, DecorationSet};

verus! {

/// An occurrence: where it is, and whether it is read (2) or written (3).
#[derive(Debug, Clone, Copy, PartialEq, Eq, Structural)]
pub struct Highlight {
    pub line: u32,
    pub start_char16: u32,
    pub end_line: u32,
    pub end_char16: u32,
    pub kind: u8,
}

/// The style of an occurrence.
pub open spec fn scope_of(kind: u8) -> Seq<char> {
    if kind == 2 {
        "lsp.highlight.read"@
    } else if kind == 3 {
        "lsp.highlight.write"@
    } else {
        "lsp.highlight.text"@
    }
}

/// The style of an occurrence.
fn scope_for(kind: u8) -> (r: &'static str)
    ensures
        r@ == scope_of(kind),
{
    if kind == 2 {
        "lsp.highlight.read"
    } else if kind == 3 {
        "lsp.highlight.write"
    } else {
        "lsp.highlight.text"
    }
}

/// The positions that occurrences need: of each its start and its end.
pub open spec fn asked(hls: Seq<Highlight>, n: int) -> Seq<(u32, u32)>
    decreases n,
{
    if n <= 0 {
        Seq::empty()
    } else {
        let h = hls[n - 1];
        asked(hls, n - 1).push((h.line, h.start_char16)).push((h.end_line, h.end_char16))
    }
}

/// The ranges of occurrences, each at least one character.
pub open spec fn painted(hls: Seq<Highlight>, at: Seq<usize>) -> Seq<(int, int, Seq<char>)> {
    Seq::new(
        hls.len(),
        |i: int|
            (
                at[2 * i] as int,
                greater(at[2 * i + 1] as int, at[2 * i] + 1),
                scope_of(hls[i].kind),
            ),
    )
}

/// Whether the caret is on a name or just behind one.
pub open spec fn on_name(d: Option<&Doc>) -> bool {
    match d {
        Some(d) => (d.head < d.chars@.len() && is_name(d.chars@[d.head as int])) || (d.head > 0
            && is_name(d.chars@[d.head - 1])),
        None => false,
    }
}

/// The request after the caret moved.
pub open spec fn moved(d: Option<&Doc>, lsp: bool) -> EffectView {
    if lsp && on_name(d) {
        EffectView::Ask(RequestView::DocumentHighlight)
    } else {
        EffectView::ClearDecorations("lsp.highlight"@)
    }
}

/// The request that shows occurrences.
pub open spec fn shown(hls: Seq<Highlight>, at: Seq<usize>) -> EffectView {
    if hls.len() == 0 {
        EffectView::ClearDecorations("lsp.highlight"@)
    } else {
        EffectView::SetDecorations { layer: "lsp.highlight"@, set: only_spans(painted(hls, at)) }
    }
}

/// Occurrences are asked for where a part of a name is on either side of the caret and there is a
/// server; anywhere else the last ones go.
pub proof fn occurrences_are_asked_for_on_names(d: &Doc, lsp: bool)
    requires
        d.head <= d.size(),
    ensures
        ({
            let asks = EffectView::Ask(RequestView::DocumentHighlight);
            let h = d.head as int;
            &&& lsp && h < d.size() && is_name(d.chars@[h]) ==> moved(Some(d), lsp) == asks
            &&& lsp && h > 0 && is_name(d.chars@[h - 1]) ==> moved(Some(d), lsp) == asks
            &&& !lsp || ((h == d.size() || !is_name(d.chars@[h])) && (h == 0 || !is_name(
                d.chars@[h - 1],
            ))) ==> moved(Some(d), lsp) == EffectView::ClearDecorations("lsp.highlight"@)
        }),
{
}

/// Every occurrence is shown from its start to its end, at least one character long, and reads and
/// writes are told apart.
pub proof fn occurrences_are_shown_at_their_places(hls: Seq<Highlight>, at: Seq<usize>, i: int)
    requires
        at.len() == 2 * hls.len(),
        0 <= i < hls.len(),
    ensures
        ({
            let p = painted(hls, at)[i];
            &&& shown(hls, at) matches EffectView::SetDecorations { layer, set } && set.spans
                == painted(hls, at)
            &&& painted(hls, at).len() == hls.len()
            &&& p.0 == at[2 * i]
            &&& p.1 > p.0
            &&& at[2 * i + 1] > at[2 * i] ==> p.1 == at[2 * i + 1]
            &&& hls[i].kind == 2 ==> p.2 == "lsp.highlight.read"@
            &&& hls[i].kind == 3 ==> p.2 == "lsp.highlight.write"@
        }),
        asked(hls, hls.len() as int).len() == 2 * hls.len(),
        asked(hls, hls.len() as int)[2 * i] == (hls[i].line, hls[i].start_char16),
        asked(hls, hls.len() as int)[2 * i + 1] == (hls[i].end_line, hls[i].end_char16),
{
    lemma_asked(hls, hls.len() as int, i);
}

proof fn lemma_asked(hls: Seq<Highlight>, n: int, i: int)
    requires
        0 <= n <= hls.len(),
    ensures
        asked(hls, n).len() == 2 * n,
        0 <= i < n ==> asked(hls, n)[2 * i] == (hls[i].line, hls[i].start_char16) && asked(hls, n)[2
            * i + 1] == (hls[i].end_line, hls[i].end_char16),
    decreases n,
{
    if n > 0 {
        lemma_asked(hls, n - 1, i);
    }
}

/// The highlights of the active document.
pub struct DocumentHighlightPlugin;

impl DocumentHighlightPlugin {
    /// The positions that occurrences need, in order.
    pub fn positions(hls: &[Highlight]) -> (r: Vec<(u32, u32)>)
        ensures
            r@ == asked(hls@, hls@.len() as int),
            r@.len() == 2 * hls@.len(),
    {
        let mut out: Vec<(u32, u32)> = Vec::new();
        let mut i: usize = 0;
        assert(out@ =~= Seq::empty());
        while i < hls.len()
            invariant
                i <= hls.len(),
                out@ == asked(hls@, i as int),
                out@.len() == 2 * i,
            decreases hls.len() - i,
        {
            out.push((hls[i].line, hls[i].start_char16));
            out.push((hls[i].end_line, hls[i].end_char16));
            i += 1;
        }
        out
    }

    /// Show the occurrences in the active document. `at` are their positions in the text.
    pub fn publish(hls: &[Highlight], at: &[usize]) -> (r: Vec<Effect>)
        requires
            at@.len() == 2 * hls@.len(),
            forall|i: int| 0 <= i < at@.len() ==> (#[trigger] at@[i]) < usize::MAX,
        ensures
            effects_view(r@) == seq![shown(hls@, at@)],
    {
        if hls.len() == 0 {
            return Self::clear();
        }
        let mut spans: Vec<Decoration> = Vec::new();
        let mut i: usize = 0;
        while i < hls.len()
            invariant
                i <= hls.len(),
                at.len() == 2 * hls@.len(),
                forall|j: int| 0 <= j < at@.len() ==> (#[trigger] at@[j]) < usize::MAX,
                spans@.len() == i,
                forall|j: int|
                    0 <= j < i ==> ((#[trigger] spans@[j]).start as int, spans@[j].end as int, spans@[j].style@)
                        == painted(hls@, at@)[j],
            decreases hls.len() - i,
        {
            let start: usize = at[2 * i];
            let end: usize = max_of(at[2 * i + 1], start + 1);
            spans.push(Decoration { start, end, style: scope_for(hls[i].kind).to_owned() });
            i += 1;
        }
        assert(decorations_view(spans@) =~= painted(hls@, at@));
        let mut out: Vec<Effect> = no_effects();
        emit(
            &mut out,
            Effect::SetDecorations {
                layer: "lsp.highlight".to_owned(),
                set: DecorationSet::spans(spans),
            },
        );
        out
    }

    /// Take the occurrences off the active document, where its text changed or another is active.
    pub fn clear() -> (r: Vec<Effect>)
        ensures
            effects_view(r@) == seq![EffectView::ClearDecorations("lsp.highlight"@)],
    {
        let mut out: Vec<Effect> = no_effects();
        emit(&mut out, Effect::ClearDecorations("lsp.highlight".to_owned()));
        out
    }

    /// Whether the caret is on a name or just behind one.
    fn cursor_on_word(doc: Option<&Doc>) -> (r: bool)
        requires
            opt_wf(doc),
        ensures
            r == on_name(doc),
    {
        match doc {
            Some(d) => (d.head < d.chars.len() && is_ident(d.chars[d.head])) || (d.head > 0
                && is_ident(d.chars[d.head - 1])),
            None => false,
        }
    }

    /// The active document's caret moved: ask for the occurrences where it is on a name.
    pub fn on_cursor(doc: Option<&Doc>, lsp: bool) -> (r: Vec<Effect>)
        requires
            opt_wf(doc),
        ensures
            effects_view(r@) == seq![moved(doc, lsp)],
    {
        if lsp && Self::cursor_on_word(doc) {
            let mut out: Vec<Effect> = no_effects();
            emit(&mut out, Effect::Ask(Request::DocumentHighlight));
            out
        } else {
            Self::clear()
        }
    }
}

} // verus!
