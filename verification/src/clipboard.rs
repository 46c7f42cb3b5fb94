//! Copying, cutting and pasting.

use vstd::prelude::*;

use crate::contribution::{Contributions, Offer};
use crate::doc::{greater, lesser, max_of, min_of, Doc, Selection};
use crate::effect::{effects_view, emit, no_effects, spans_of, Effect, EffectView, SpanEdit};
use crate::text::{no_text, same};

verus! {

/// The text of the primary selection; none where it is a bare caret.
pub open spec fn copied(d: Option<&Doc>) -> Option<Seq<char>> {
    match d {
        Some(d) => if d.anchor == d.head {
            None
        } else {
            Some(
                d.slice(
                    lesser(d.anchor as int, d.head as int),
                    greater(d.anchor as int, d.head as int),
                ),
            )
        },
        None => None,
    }
}

/// What cutting removes for a selection: its span, or for a bare caret what is before it, from
/// `left`.
pub open spec fn removal(s: Selection, left: usize) -> (int, int, Seq<char>) {
    if s.anchor == s.head {
        (left as int, s.head as int, Seq::empty())
    } else {
        (s.from_of(), s.to_of(), Seq::empty())
    }
}

/// What cutting removes.
pub open spec fn removals(sels: Seq<Selection>, lefts: Seq<usize>) -> Seq<(int, int, Seq<char>)> {
    Seq::new(sels.len(), |i: int| removal(sels[i], lefts[i]))
}

/// What pasting replaces.
pub open spec fn insertions(sels: Seq<Selection>, text: Seq<char>) -> Seq<(int, int, Seq<char>)> {
    sels.map_values(|s: Selection| (s.from_of(), s.to_of(), text))
}

/// Whether a replacement changes anything.
pub open spec fn changes(e: (int, int, Seq<char>)) -> bool {
    e.0 < e.1 || e.2.len() > 0
}

/// Whether one of the replacements changes anything.
pub open spec fn any_changes(edits: Seq<(int, int, Seq<char>)>) -> bool {
    exists|i: int| 0 <= i < edits.len() && changes(#[trigger] edits[i])
}

/// The request for replacements; none where they change nothing.
pub open spec fn edited(edits: Seq<(int, int, Seq<char>)>) -> Seq<EffectView> {
    if any_changes(edits) {
        seq![EffectView::EditSelections(edits)]
    } else {
        Seq::empty()
    }
}

/// What a command asks for; nothing where it is not one of these.
pub open spec fn commanded(
    command: Seq<char>,
    d: Option<&Doc>,
    sels: Seq<Selection>,
    lefts: Seq<usize>,
    clipboard: Seq<char>,
) -> Option<Seq<EffectView>> {
    if command == "edit.copy"@ {
        Some(
            match copied(d) {
                Some(t) => seq![EffectView::ClipboardWrite(t)],
                None => Seq::empty(),
            },
        )
    } else if command == "edit.cut"@ {
        Some(
            match copied(d) {
                Some(t) => seq![EffectView::ClipboardWrite(t)] + edited(removals(sels, lefts)),
                None => Seq::empty(),
            },
        )
    } else if command == "edit.paste"@ {
        Some(
            match d {
                Some(_) => edited(insertions(sels, clipboard)),
                None => Seq::empty(),
            },
        )
    } else {
        None
    }
}

/// Ask for replacements that change something.
fn edit(edits: Vec<SpanEdit>, out: &mut Vec<Effect>)
    ensures
        effects_view(final(out)@) == effects_view(old(out)@) + edited(spans_of(edits@)),
{
    let ghost v = spans_of(edits@);
    let mut i: usize = 0;
    let mut any: bool = false;
    while i < edits.len() && !any
        invariant
            i <= edits.len(),
            v == spans_of(edits@),
            any ==> any_changes(v),
            !any ==> forall|k: int| 0 <= k < i ==> !changes(#[trigger] v[k]),
        decreases edits.len() - i + if any {
            0int
        } else {
            1
        },
    {
        let e: &SpanEdit = &edits[i];
        assert(v[i as int] == (e.start as int, e.end as int, e.text@));
        if e.start < e.end || !e.text.as_str().is_empty() {
            any = true;
            assert(changes(v[i as int]));
        } else {
            i += 1;
        }
    }
    if any {
        emit(out, Effect::EditSelections(edits));
    }
    assert(effects_view(out@) =~= effects_view(old(out)@) + edited(v));
}

/// Copies, cuts and pastes.
pub struct ClipboardPlugin;

/// What the plugin contributes.
pub open spec fn contributed() -> Offer {
    Offer::none()
        .command("edit.copy"@, "Edit: Copy"@)
        .keybinding("ctrl+c"@, "edit.copy"@)
        .command("edit.cut"@, "Edit: Cut"@)
        .keybinding("ctrl+x"@, "edit.cut"@)
        .command("edit.paste"@, "Edit: Paste"@)
        .keybinding("ctrl+v"@, "edit.paste"@)
}

impl ClipboardPlugin {
    /// What the plugin contributes.
    pub fn contributions() -> (r: Contributions)
        ensures
            r@ == contributed(),
    {
        Contributions::builder()
            .command("edit.copy", "Edit: Copy")
            .keybinding("ctrl+c", "edit.copy")
            .command("edit.cut", "Edit: Cut")
            .keybinding("ctrl+x", "edit.cut")
            .command("edit.paste", "Edit: Paste")
            .keybinding("ctrl+v", "edit.paste")
    }

    /// The text of the primary selection; none where it is a bare caret.
    pub fn primary_selection_text(doc: Option<&Doc>) -> (r: Option<String>)
        ensures
            match r {
                Some(t) => copied(doc) == Some(t@),
                None => copied(doc) is None,
            },
    {
        match doc {
            Some(d) => if d.anchor == d.head {
                None
            } else {
                Some(d.text_between(min_of(d.anchor, d.head), max_of(d.anchor, d.head)))
            },
            None => None,
        }
    }

    /// Run a command; none where it is not one of these. `sels` are the document's selections,
    /// `lefts` is for each of them where the character before its caret starts, and `clipboard` is
    /// what the clipboard holds.
    pub fn run_command(
        command_id: &str,
        doc: Option<&Doc>,
        sels: &[Selection],
        lefts: &[usize],
        clipboard: &str,
    ) -> (r: Option<Vec<Effect>>)
        requires
            lefts@.len() == sels@.len(),
        ensures
            match r {
                Some(out) => commanded(command_id@, doc, sels@, lefts@, clipboard@) == Some(
                    effects_view(out@),
                ),
                None => commanded(command_id@, doc, sels@, lefts@, clipboard@) is None,
            },
    {
        let mut out: Vec<Effect> = no_effects();
        let mut edits: Vec<SpanEdit> = Vec::new();
        let mut i: usize = 0;
        if same(command_id, "edit.copy") {
            if let Some(t) = Self::primary_selection_text(doc) {
                emit(&mut out, Effect::ClipboardWrite(t));
            }
        } else if same(command_id, "edit.cut") {
            if let Some(t) = Self::primary_selection_text(doc) {
                emit(&mut out, Effect::ClipboardWrite(t));
                while i < sels.len()
                    invariant
                        i <= sels.len(),
                        lefts@.len() == sels@.len(),
                        edits@.len() == i,
                        forall|k: int|
                            0 <= k < i ==> ((#[trigger] edits@[k]).start as int, edits@[k].end as int, edits@[k].text@)
                                == removal(sels@[k], lefts@[k]),
                    decreases sels.len() - i,
                {
                    let s: &Selection = &sels[i];
                    let (a, b): (usize, usize) = if s.is_empty() {
                        (lefts[i], s.head)
                    } else {
                        (s.from(), s.to())
                    };
                    edits.push(SpanEdit { start: a, end: b, text: no_text() });
                    i += 1;
                }
                assert(spans_of(edits@) =~= removals(sels@, lefts@));
                edit(edits, &mut out);
            }
        } else if same(command_id, "edit.paste") {
            if doc.is_some() {
                while i < sels.len()
                    invariant
                        i <= sels.len(),
                        edits@.len() == i,
                        forall|k: int|
                            0 <= k < i ==> ((#[trigger] edits@[k]).start as int, edits@[k].end as int, edits@[k].text@)
                                == (sels@[k].from_of(), sels@[k].to_of(), clipboard@),
                    decreases sels.len() - i,
                {
                    let s: &Selection = &sels[i];
                    edits.push(
                        SpanEdit { start: s.from(), end: s.to(), text: clipboard.to_owned() },
                    );
                    i += 1;
                }
                assert(spans_of(edits@) =~= insertions(sels@, clipboard@));
                edit(edits, &mut out);
            }
        } else {
            return None;
        }
        Some(out)
    }
}

/// Copying never edits: all that it asks for is that the selected text is kept.
pub proof fn copying_never_edits(
    d: Option<&Doc>,
    sels: Seq<Selection>,
    lefts: Seq<usize>,
    clipboard: Seq<char>,
)
    ensures
        commanded("edit.copy"@, d, sels, lefts, clipboard) == Some(
            match copied(d) {
                Some(t) => seq![EffectView::ClipboardWrite(t)],
                None => Seq::empty(),
            },
        ),
{
}

/// Pasting nothing over bare carets asks for no edit.
pub proof fn pasting_nothing_changes_nothing(
    d: Option<&Doc>,
    sels: Seq<Selection>,
    lefts: Seq<usize>,
)
    requires
        forall|i: int| 0 <= i < sels.len() ==> (#[trigger] sels[i]).anchor == sels[i].head,
    ensures
        commanded("edit.paste"@, d, sels, lefts, Seq::empty()) == Some(Seq::<EffectView>::empty()),
{
    reveal_strlit("edit.paste");
    reveal_strlit("edit.copy");
    reveal_strlit("edit.cut");
    assert("edit.paste"@[5] == 'p' && "edit.copy"@[5] == 'c' && "edit.cut"@[5] == 'c');
    let e = insertions(sels, Seq::empty());
    assert forall|i: int| 0 <= i < e.len() implies !changes(#[trigger] e[i]) by {
        assert(e[i] == (sels[i].from_of(), sels[i].to_of(), Seq::<char>::empty()));
    }
}

/// Cutting needs a selection: with a bare primary caret it asks for nothing.
pub proof fn cutting_needs_a_selection(
    d: Option<&Doc>,
    sels: Seq<Selection>,
    lefts: Seq<usize>,
    clipboard: Seq<char>,
)
    requires
        copied(d) is None,
    ensures
        commanded("edit.cut"@, d, sels, lefts, clipboard) == Some(Seq::<EffectView>::empty()),
{
    reveal_strlit("edit.copy");
    reveal_strlit("edit.cut");
    assert("edit.cut"@.len() != "edit.copy"@.len());
}

proof fn lemma_commands()
    ensures
        "edit.copy"@ != "edit.cut"@,
        "edit.copy"@ != "edit.paste"@,
        "edit.cut"@ != "edit.paste"@,
{
    reveal_strlit("edit.copy");
    reveal_strlit("edit.cut");
    reveal_strlit("edit.paste");
    assert("edit.copy"@.len() == 9 && "edit.cut"@.len() == 8 && "edit.paste"@.len() == 10);
}

/// Copying writes the selected text to the clipboard, from the lesser of its ends to the greater, and
/// asks for nothing else.
pub proof fn copying_writes_the_selected_text(
    d: &Doc,
    sels: Seq<Selection>,
    lefts: Seq<usize>,
    clipboard: Seq<char>,
    a: int,
    b: int,
)
    requires
        0 <= a < b <= d.size(),
        (d.anchor == a && d.head == b) || (d.anchor == b && d.head == a),
    ensures
        commanded("edit.copy"@, Some(d), sels, lefts, clipboard) == Some(
            seq![EffectView::ClipboardWrite(d.chars@.subrange(a, b))],
        ),
{
    lemma_commands();
    assert(d.slice(a, b) =~= d.chars@.subrange(a, b));
}

/// Cutting writes the selected text to the clipboard and takes every selection out of the text; for a
/// bare caret among them what is before it goes.
pub proof fn cutting_copies_and_removes(
    d: &Doc,
    sels: Seq<Selection>,
    lefts: Seq<usize>,
    clipboard: Seq<char>,
    i: int,
)
    requires
        d.anchor != d.head,
        d.anchor <= d.size(),
        d.head <= d.size(),
        0 <= i < sels.len(),
        sels[i].anchor != sels[i].head,
    ensures
        ({
            let copy = commanded("edit.copy"@, Some(d), sels, lefts, clipboard).unwrap();
            let cut = commanded("edit.cut"@, Some(d), sels, lefts, clipboard).unwrap();
            let s = sels[i];
            &&& copy.len() == 1
            &&& cut.len() == 2
            &&& cut[0] == copy[0]
            &&& cut[1] matches EffectView::EditSelections(es) && es.len() == sels.len() && es[i].0
                + es[i].1 == s.anchor + s.head && es[i].0 < es[i].1 && (es[i].0 == s.anchor
                || es[i].0 == s.head) && es[i].2.len() == 0 && forall|k: int|
                0 <= k < es.len() ==> (#[trigger] es[k]).2.len() == 0
        }),
{
    lemma_commands();
    let es = removals(sels, lefts);
    assert(changes(es[i]));
    assert(any_changes(es));
}

/// Pasting puts the clipboard's text in the place of every selection.
pub proof fn pasting_replaces_every_selection(
    d: &Doc,
    sels: Seq<Selection>,
    lefts: Seq<usize>,
    clipboard: Seq<char>,
    i: int,
)
    requires
        clipboard.len() > 0,
        0 <= i < sels.len(),
    ensures
        ({
            let out = commanded("edit.paste"@, Some(d), sels, lefts, clipboard).unwrap();
            let s = sels[i];
            &&& out.len() == 1
            &&& out[0] matches EffectView::EditSelections(es) && es.len() == sels.len() && es[i].2
                == clipboard && es[i].0 <= es[i].1 && es[i].0 + es[i].1 == s.anchor + s.head && (
            es[i].0 == s.anchor || es[i].0 == s.head)
        }),
{
    lemma_commands();
    let es = insertions(sels, clipboard);
    assert(changes(es[i]));
    assert(any_changes(es));
}

} // verus!
