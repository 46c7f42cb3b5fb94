//! What the keys of the completion popup come to.

use vstd::prelude::*;

use crate::completion::plugin::{
    changed, followed, is_name, name_start, pressed, shown, CompletionStep,
};
use crate::completion::state::{ranked, subsequence, CompletionView, ItemView};
use crate::doc::{Doc, Selection};
use crate::effect::{after_all, ChangeView, EffectView};
use crate::key::{Key, KeyCode};
use crate::protocol::RequestView;
use crate::snippet::expanded;

verus! {

/// The item that the popup shows as selected.
pub open spec fn chosen(v: CompletionView) -> ItemView {
    v.items[v.filtered[v.selected as int] as int]
}

/// The row that the popup shows as selected is that of the item that accepting takes.
pub proof fn the_selected_row_is_the_item(v: CompletionView)
    requires
        v.wf(),
        v.selected < v.filtered.len(),
    ensures
        v.selected_item() == Some(chosen(v)),
        shown(v) matches EffectView::SetPopup(Some(p)) && p.selected == v.selected && p.rows.len()
            == v.filtered.len() && p.rows[p.selected].1 == chosen(v).label && p.rows[p.selected].2
            == chosen(v).detail && p.anchor == v.anchor,
{
}

/// Where a name starts: all characters from there to `p` are parts of names, and the one before is
/// not.
pub proof fn names_start_behind_other_characters(s: Seq<char>, p: int)
    requires
        0 <= p <= s.len(),
    ensures
        ({
            let a = name_start(s, p);
            &&& 0 <= a <= p
            &&& forall|k: int| a <= k < p ==> is_name(#[trigger] s[k])
            &&& a > 0 ==> !is_name(s[a - 1])
        }),
    decreases p,
{
    if p > 0 && is_name(s[p - 1]) {
        names_start_behind_other_characters(s, p - 1);
    }
}

/// Enter and Tab accept a plain item: the popup goes, and the item's text takes the place of the name
/// before the caret, and of what each other caret has selected. What follows comes after.
pub proof fn accepting_inserts_the_selected_item(
    v: CompletionView,
    incomplete: bool,
    key: Key,
    d: &Doc,
    sels: Seq<Selection>,
    path: Option<Seq<char>>,
    lsp: bool,
    i: int,
)
    requires
        key.code == KeyCode::Enter || key.code == KeyCode::Tab,
        v.wf(),
        v.selected < v.filtered.len(),
        !chosen(v).is_snippet,
        0 <= i < sels.len(),
    ensures
        ({
            let item = chosen(v);
            let s = pressed(Some(v), incomplete, key, Some(d), sels, path, lsp).unwrap();
            &&& s.state is None
            &&& s.out.len() >= 2
            &&& s.out[0] == EffectView::SetPopup(None)
            &&& s.out[1] matches EffectView::EditSelections(es) && es.len() == sels.len() && es[i].2
                == item.insert_text && (sels[i].head == d.head ==> es[i].1 == d.head && es[i].0
                == name_start(d.chars@, d.head as int)) && (sels[i].head != d.head ==> es[i].0
                == sels[i].from_of() && es[i].1 == sels[i].to_of())
            &&& s.out.skip(2) == followed(item, path, lsp)
        }),
{
    let item = chosen(v);
    let s = pressed(Some(v), incomplete, key, Some(d), sels, path, lsp).unwrap();
    assert(v.selected_item() == Some(item));
    assert(s.out.skip(2) =~= followed(item, path, lsp));
}

/// Accepting a snippet puts its expansion in the place of the name before the caret.
pub proof fn accepting_expands_a_snippet(
    v: CompletionView,
    incomplete: bool,
    key: Key,
    d: &Doc,
    sels: Seq<Selection>,
    path: Option<Seq<char>>,
    lsp: bool,
)
    requires
        key.code == KeyCode::Enter || key.code == KeyCode::Tab,
        v.wf(),
        v.selected < v.filtered.len(),
        chosen(v).is_snippet,
        d.wf(),
    ensures
        ({
            let item = chosen(v);
            let a = name_start(d.chars@, d.head as int);
            let s = pressed(Some(v), incomplete, key, Some(d), sels, path, lsp).unwrap();
            &&& s.state is None
            &&& s.out[0] == EffectView::SetPopup(None)
            &&& s.out[1] matches EffectView::Apply(cs) && cs.len() == 1 && after_all(d.chars@, cs)
                == d.chars@.take(a) + expanded(item.insert_text).out + d.chars@.skip(d.head as int)
            &&& s.out.skip(3) == followed(item, path, lsp)
        }),
{
    let item = chosen(v);
    let a = name_start(d.chars@, d.head as int);
    names_start_behind_other_characters(d.chars@, d.head as int);
    let s = pressed(Some(v), incomplete, key, Some(d), sels, path, lsp).unwrap();
    assert(v.selected_item() == Some(item));
    assert(s.out.skip(3) =~= followed(item, path, lsp));
    let c = ChangeView {
        at: a,
        removed: d.chars@.subrange(a, d.head as int),
        inserted: expanded(item.insert_text).out,
    };
    assert(s.out[1] == EffectView::Apply(seq![c]));
    assert(seq![c].drop_last() =~= Seq::empty());
    assert(after_all(crate::effect::after(d.chars@, c), Seq::<ChangeView>::empty())
        == crate::effect::after(d.chars@, c));
}

/// An item's further changes are applied to the document's file; without any, the server is asked for
/// them where it can be; its command is run last.
pub proof fn what_follows_an_item(item: ItemView, path: Seq<char>, lsp: bool)
    ensures
        ({
            let out = followed(item, Some(path), lsp);
            &&& item.edits.len() > 0 ==> out.len() > 0 && out[0] == EffectView::ApplyWorkspaceEdit(
                seq![(path, item.edits)],
            )
            &&& item.edits.len() == 0 && item.data is Some && lsp ==> out.len() > 0 && out[0]
                == EffectView::Ask(
                RequestView::ResolveCompletion { label: item.label, data: item.data.unwrap() },
            )
            &&& item.command matches Some((command, arguments)) ==> out.len() > 0 && out.last()
                == EffectView::Ask(RequestView::ExecuteCommand { command, arguments })
            &&& item.edits.len() == 0 && item.data is None && item.command is None ==> out.len()
                == 0
        }),
{
}

/// Down selects the match after the selected and up the one before, going round; escape takes the
/// popup down; other keys go on to the text.
pub proof fn arrows_move_the_selection(
    v: CompletionView,
    incomplete: bool,
    key: Key,
    d: Option<&Doc>,
    sels: Seq<Selection>,
    path: Option<Seq<char>>,
    lsp: bool,
)
    requires
        v.selected < v.filtered.len(),
        v.filtered.len() <= usize::MAX,
    ensures
        ({
            let s = pressed(Some(v), incomplete, key, d, sels, path, lsp);
            &&& key.code == KeyCode::Down ==> s is Some && s->0.state == Some(
                CompletionView {
                    selected: if v.selected + 1 < v.filtered.len() {
                        (v.selected + 1) as usize
                    } else {
                        0
                    },
                    ..v
                },
            )
            &&& key.code == KeyCode::Up ==> s is Some && s->0.state == Some(
                CompletionView {
                    selected: if v.selected > 0 {
                        (v.selected - 1) as usize
                    } else {
                        (v.filtered.len() - 1) as usize
                    },
                    ..v
                },
            )
            &&& key.code == KeyCode::Esc ==> s is Some && s->0.state is None && s->0.out == seq![
                EffectView::SetPopup(None),
            ]
            &&& key.code is Char ==> s is None
        }),
{
    let n = v.filtered.len() as int;
    let i = v.selected as int;
    if i + 1 < n {
        vstd::arithmetic::div_mod::lemma_small_mod((i + 1) as nat, n as nat);
    } else {
        vstd::arithmetic::div_mod::lemma_mod_self_0(n);
    }
    if i > 0 {
        vstd::arithmetic::div_mod::lemma_small_mod((i - 1) as nat, n as nat);
    } else {
        vstd::arithmetic::div_mod::lemma_mod_add_multiples_vanish(-1, n);
        vstd::arithmetic::div_mod::lemma_small_mod((n - 1) as nat, n as nat);
    }
}

/// A dot before the caret, or the second of two colons, asks the server for completion; without a
/// popup nothing else does.
pub proof fn triggers_ask_for_completion(d: &Doc, incomplete: bool)
    requires
        0 < d.head <= d.size(),
    ensures
        ({
            let prev = d.chars@[d.head - 1];
            let out = changed(None, incomplete, Some(d), true).out;
            &&& prev == '.' ==> out == seq![EffectView::Ask(RequestView::Completion)]
            &&& prev == ':' && d.head >= 2 && d.chars@[d.head - 2] == ':' ==> out == seq![
                EffectView::Ask(RequestView::Completion),
            ]
            &&& prev != '.' && prev != ':' ==> out.len() == 0
            &&& prev == ':' && (d.head < 2 || d.chars@[d.head - 2] != ':') ==> out.len() == 0
        }),
{
}

/// The characters of a needle that stand in a text at places that go up are found in order.
pub proof fn characters_in_order_are_found(
    needle: Seq<char>,
    i: int,
    hay: Seq<char>,
    j: int,
    places: Seq<int>,
)
    requires
        0 <= i <= needle.len(),
        0 <= j <= hay.len(),
        places.len() == needle.len(),
        forall|k: int|
            i <= k < needle.len() ==> j <= #[trigger] places[k] < hay.len() && hay[places[k]]
                == needle[k],
        forall|k: int, l: int|
            #![trigger places[k], places[l]]
            i <= k < l < needle.len() ==> places[k] < places[l],
    ensures
        subsequence(needle, i, hay, j),
    decreases hay.len() - j,
{
    if i < needle.len() {
        assert(j <= places[i] < hay.len());
        if hay[j] == needle[i] {
            assert forall|k: int| i + 1 <= k < needle.len() implies j + 1 <= #[trigger] places[k]
                < hay.len() && hay[places[k]] == needle[k] by {
                assert(places[i] < places[k]);
            }
            characters_in_order_are_found(needle, i + 1, hay, j + 1, places);
        } else {
            assert forall|k: int| i <= k < needle.len() implies j + 1 <= #[trigger] places[k]
                < hay.len() && hay[places[k]] == needle[k] by {
                if k > i {
                    assert(places[i] < places[k]);
                }
            }
            characters_in_order_are_found(needle, i, hay, j + 1, places);
        }
    }
}

/// A needle that is found has all its characters in the text.
pub proof fn found_characters_are_there(needle: Seq<char>, i: int, hay: Seq<char>, j: int, k: int)
    requires
        subsequence(needle, i, hay, j),
        0 <= i <= k < needle.len(),
        0 <= j,
    ensures
        exists|p: int| j <= p < hay.len() && #[trigger] hay[p] == needle[k],
    decreases hay.len() - j,
{
    if hay[j] == needle[i] {
        if k > i {
            found_characters_are_there(needle, i + 1, hay, j + 1, k);
        }
    } else {
        found_characters_are_there(needle, i, hay, j + 1, k);
    }
}

/// Items that came open the popup on the name before the caret: it is anchored where the name starts,
/// the first match is selected, and only items that match what was typed are shown.
pub proof fn items_open_the_popup(
    state: Option<CompletionView>,
    items: Seq<ItemView>,
    incomplete: bool,
    d: &Doc,
)
    requires
        d.wf(),
        ranked(
            items,
            d.chars@.subrange(name_start(d.chars@, d.head as int), d.head as int),
        ).len() > 0,
        items.len() > 0,
    ensures
        ({
            let s = CompletionStep::opened(state, items, incomplete, Some(d));
            let a = name_start(d.chars@, d.head as int);
            let v = s.state.unwrap();
            &&& s.state is Some
            &&& s.incomplete == incomplete
            &&& v.anchor == a
            &&& v.prefix == d.chars@.subrange(a, d.head as int)
            &&& v.selected == 0
            &&& v.items == items
            &&& v.filtered == ranked(items, v.prefix)
            &&& s.out == seq![shown(v)]
        }),
{
    names_start_behind_other_characters(d.chars@, d.head as int);
}

/// While the caret stays on the name the popup shows the matches for what is typed now; where it
/// leaves the name, or nothing matches, the popup goes.
pub proof fn typing_keeps_the_popup_on_the_name(v: CompletionView, incomplete: bool, d: &Doc)
    requires
        d.wf(),
    ensures
        ({
            let s = CompletionStep::refreshed(v, incomplete, Some(d));
            let gone = s.state is None && s.out == seq![EffectView::SetPopup(None)];
            let typed = d.chars@.subrange(v.anchor as int, d.head as int);
            &&& d.head < v.anchor ==> gone
            &&& d.head >= v.anchor && (exists|k: int|
                v.anchor <= k < d.head && !is_name(#[trigger] d.chars@[k])) ==> gone
            &&& s.state matches Some(w) ==> w.prefix == typed && w.anchor == v.anchor && w.items
                == v.items && w.selected == 0 && w.filtered == ranked(v.items, typed)
                && w.filtered.len() > 0 && s.out == seq![shown(w)]
        }),
{
    let typed = d.chars@.subrange(v.anchor as int, d.head as int);
    if d.head >= v.anchor && exists|k: int|
        v.anchor <= k < d.head && !is_name(#[trigger] d.chars@[k]) {
        let k = choose|k: int| v.anchor <= k < d.head && !is_name(#[trigger] d.chars@[k]);
        assert(typed[k - v.anchor] == d.chars@[k]);
        assert(!is_name(typed[k - v.anchor]));
    }
}

} // verus!
