//! Folding: a mark beside the first line of each region that can be folded.

use vstd::prelude::*;

use crate::effect::{effects_view, emit, no_effects, Effect, EffectView};
use crate::ui::{gutter_view, only_gutter, DecorationSet, GutterMark};

verus! {

/// A region that can be folded.
#[derive(Debug, Clone, Copy, PartialEq, Eq, Structural)]
pub struct FoldingRange {
    pub start_line: u32,
    pub end_line: u32,
}

/// The marks of the first `n` regions; one that is on a single line has none.
pub open spec fn chevrons(ranges: Seq<FoldingRange>, n: int) -> Seq<(int, char, Seq<char>)>
    decreases n,
{
    if n <= 0 {
        Seq::empty()
    } else if ranges[n - 1].end_line > ranges[n - 1].start_line {
        chevrons(ranges, n - 1).push((ranges[n - 1].start_line as int, '⌄', "lsp.fold"@))
    } else {
        chevrons(ranges, n - 1)
    }
}

/// The request that shows a document's regions.
pub open spec fn shown(ranges: Seq<FoldingRange>) -> EffectView {
    if ranges.len() == 0 {
        EffectView::ClearDecorations("lsp.fold"@)
    } else {
        EffectView::SetDecorations {
            layer: "lsp.fold"@,
            set: only_gutter(chevrons(ranges, ranges.len() as int)),
        }
    }
}

/// Every region of more than one line has a mark beside its first line, and every mark is such a
/// region's.
pub proof fn regions_are_marked_at_their_first_line(ranges: Seq<FoldingRange>, n: int, i: int)
    requires
        0 <= n <= ranges.len(),
    ensures
        0 <= i < n && ranges[i].end_line > ranges[i].start_line ==> exists|k: int|
            0 <= k < chevrons(ranges, n).len() && (#[trigger] chevrons(ranges, n)[k]).0
                == ranges[i].start_line,
        0 <= i < chevrons(ranges, n).len() ==> exists|k: int|
            0 <= k < n && (#[trigger] ranges[k]).end_line > ranges[k].start_line && chevrons(
                ranges,
                n,
            )[i].0 == ranges[k].start_line,
        shown(Seq::empty()) == EffectView::ClearDecorations("lsp.fold"@),
        ranges.len() > 0 ==> (shown(ranges) matches EffectView::SetDecorations { layer, set }
            && set.gutter == chevrons(ranges, ranges.len() as int)),
    decreases n,
{
    if n > 0 {
        regions_are_marked_at_their_first_line(ranges, n - 1, i);
        let p = chevrons(ranges, n - 1);
        let s = chevrons(ranges, n);
        if 0 <= i < n && ranges[i].end_line > ranges[i].start_line {
            if i == n - 1 {
                assert(s[s.len() - 1].0 == ranges[i].start_line);
            } else {
                let k = choose|k: int|
                    0 <= k < p.len() && (#[trigger] p[k]).0 == ranges[i].start_line;
                assert(s[k] == p[k]);
            }
        }
        if 0 <= i < s.len() {
            if i < p.len() {
                assert(s[i] == p[i]);
            } else {
                assert(ranges[n - 1].end_line > ranges[n - 1].start_line);
            }
        }
    }
}

/// The foldable regions of documents.
pub struct FoldingPlugin;

impl FoldingPlugin {
    /// Show a document's regions.
    pub fn publish(ranges: &[FoldingRange]) -> (r: Vec<Effect>)
        ensures
            effects_view(r@) == seq![shown(ranges@)],
    {
        let mut out: Vec<Effect> = no_effects();
        if ranges.len() == 0 {
            emit(&mut out, Effect::ClearDecorations("lsp.fold".to_owned()));
            return out;
        }
        let mut gutter: Vec<GutterMark> = Vec::new();
        let mut i: usize = 0;
        assert(gutter_view(gutter@) =~= Seq::empty());
        while i < ranges.len()
            invariant
                i <= ranges.len(),
                gutter_view(gutter@) == chevrons(ranges@, i as int),
            decreases ranges.len() - i,
        {
            let r: FoldingRange = ranges[i];
            if r.end_line > r.start_line {
                let ghost before = gutter@;
                gutter.push(
                    GutterMark {
                        line: r.start_line as usize,
                        glyph: '⌄',
                        style: "lsp.fold".to_owned(),
                    },
                );
                assert(gutter_view(gutter@) =~= gutter_view(before).push(
                    (r.start_line as int, '⌄', "lsp.fold"@),
                ));
            }
            i += 1;
        }
        emit(
            &mut out,
            Effect::SetDecorations {
                layer: "lsp.fold".to_owned(),
                set: DecorationSet::gutter(gutter),
            },
        );
        out
    }
}

} // verus!
