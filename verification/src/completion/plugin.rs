//! The completion popup: when it is asked for, what it shows, and what accepting an item does.

use vstd::prelude::*;

use crate::completion::state::{
    items_view, kind_label, kind_sign, started, CompletionItem, CompletionState, CompletionView,
    ItemView,
};
use crate::contribution::{Contributions, Offer};
use crate::doc::{lesser, opt_wf, sum_within, Doc, Selection};
use crate::effect::{
    changes_view, effects_view, emit, no_effects, spans_of, Change, ChangeView, Effect, EffectView,
    SpanEdit,
};
use crate::format::char_count;
use crate::key::{Key, KeyCode};
use crate::protocol::{copy_opt, files_view, FileEdit, Request, RequestView, WorkspaceEdit};
use crate::snippet::{expand, expanded, first_of, Snippet};
use crate::text::{is_alnum, same};
use crate::ui::{opt_text, popup_rows, str_view, Popup, PopupRow, PopupView};

verus! {

/// Whether a character is part of a name.
pub open spec fn is_name(c: char) -> bool {
    is_alnum(c) || c == '_'
}

/// Whether a character is part of a name.
pub fn is_ident(c: char) -> (r: bool)
    ensures
        r == is_name(c),
{
    c.is_alphanumeric() || c == '_'
}

/// Whether the character before the caret, with the one before it, asks for completion: a dot, or
/// the second of two colons.
pub open spec fn triggers(prev: char, prev2: Option<char>) -> bool {
    prev == '.' || (prev == ':' && prev2 == Some(':'))
}

/// Whether the character before the caret asks for completion.
pub fn is_trigger(prev: char, prev2: Option<char>) -> (r: bool)
    ensures
        r == triggers(prev, prev2),
{
    prev == '.' || (prev == ':' && match prev2 {
        Some(c) => c == ':',
        None => false,
    })
}

/// Whether the character before a document's caret asks for completion.
pub open spec fn at_trigger(d: Option<&Doc>) -> bool {
    match d {
        Some(d) => d.head > 0 && triggers(
            d.chars@[d.head - 1],
            if d.head >= 2 {
                Some(d.chars@[d.head - 2])
            } else {
                None
            },
        ),
        None => false,
    }
}

/// Where the name that ends at `p` starts.
pub open spec fn name_start(s: Seq<char>, p: int) -> int
    decreases p,
{
    if p > 0 && is_name(s[p - 1]) {
        name_start(s, p - 1)
    } else {
        p
    }
}

pub proof fn lemma_name_start(s: Seq<char>, p: int)
    requires
        0 <= p <= s.len(),
    ensures
        0 <= name_start(s, p) <= p,
        forall|k: int| name_start(s, p) <= k < p ==> is_name(s[k]),
    decreases p,
{
    if p > 0 && is_name(s[p - 1]) {
        lemma_name_start(s, p - 1);
    }
}

/// The popup; its state is there while it is up.
pub struct CompletionPlugin {
    pub state: Option<CompletionState>,
    /// Whether the server did not send all items.
    pub is_incomplete: bool,
}

/// The popup after an event, and what it asks for.
pub struct CompletionStep {
    pub state: Option<CompletionView>,
    pub incomplete: bool,
    pub out: Seq<EffectView>,
}

pub open spec fn state_view(s: Option<CompletionState>) -> Option<CompletionView> {
    match s {
        Some(s) => Some(s@),
        None => None,
    }
}

/// The rows of the matches.
pub open spec fn match_rows(items: Seq<ItemView>, filtered: Seq<usize>) -> Seq<
    (Seq<char>, Seq<char>, Option<Seq<char>>),
> {
    filtered.map_values(
        |i: usize|
            (kind_sign(items[i as int].kind), items[i as int].label, items[i as int].detail),
    )
}

/// The request that shows the matches; without any, none is shown.
pub open spec fn shown(v: CompletionView) -> EffectView {
    if v.filtered.len() == 0 {
        EffectView::SetPopup(None)
    } else {
        EffectView::SetPopup(
            Some(
                PopupView {
                    owner: "completion"@,
                    anchor: v.anchor as int,
                    rows: match_rows(v.items, v.filtered),
                    selected: v.selected as int,
                },
            ),
        )
    }
}

impl CompletionStep {
    /// The popup is taken down.
    pub open spec fn dismissed(incomplete: bool) -> CompletionStep {
        CompletionStep { state: None, incomplete, out: seq![EffectView::SetPopup(None)] }
    }

    /// Items came from the server. Without items, a document or a match nothing changes but whether
    /// the items are all there are.
    pub open spec fn opened(
        state: Option<CompletionView>,
        items: Seq<ItemView>,
        incomplete: bool,
        d: Option<&Doc>,
    ) -> CompletionStep {
        let idle = CompletionStep { state, incomplete, out: Seq::empty() };
        match d {
            None => idle,
            Some(d) => {
                let anchor = name_start(d.chars@, d.head as int);
                let v = started(
                    items,
                    anchor as usize,
                    d.chars@.subrange(anchor, d.head as int),
                );
                if items.len() == 0 || v.filtered.len() == 0 {
                    idle
                } else {
                    CompletionStep { state: Some(v), incomplete, out: seq![shown(v)] }
                }
            },
        }
    }

    /// The text or the caret changed: the matches are those for what is typed now. Where the caret
    /// left the name, or nothing matches, the popup is taken down.
    pub open spec fn refreshed(v: CompletionView, incomplete: bool, d: Option<&Doc>) -> CompletionStep {
        match d {
            None => CompletionStep::dismissed(incomplete),
            Some(d) => if d.head < v.anchor || !all_names(
                d.chars@.subrange(v.anchor as int, d.head as int),
            ) {
                CompletionStep::dismissed(incomplete)
            } else {
                let w = CompletionView {
                    prefix: d.chars@.subrange(v.anchor as int, d.head as int),
                    ..v
                }.refiltered();
                if w.filtered.len() == 0 {
                    CompletionStep::dismissed(incomplete)
                } else {
                    CompletionStep { state: Some(w), incomplete, out: seq![shown(w)] }
                }
            },
        }
    }
}

/// Whether all characters are parts of names.
pub open spec fn all_names(s: Seq<char>) -> bool {
    forall|k: int| 0 <= k < s.len() ==> is_name(#[trigger] s[k])
}

/// What a plain item does to each selection: the name before the primary caret gives way to it, and
/// so does what the other carets have selected.
pub open spec fn inserted(d: &Doc, sels: Seq<Selection>, text: Seq<char>) -> EffectView {
    EffectView::EditSelections(
        Seq::new(
            sels.len(),
            |i: int|
                if sels[i].head == d.head {
                    (name_start(d.chars@, d.head as int), d.head as int, text)
                } else {
                    (sels[i].from_of(), sels[i].to_of(), text)
                },
        ),
    )
}

/// What a snippet does: the name before the caret gives way to its text, and its first tabstop is
/// selected; without a tabstop the caret goes behind the text.
pub open spec fn snipped(d: &Doc, raw: Seq<char>) -> Seq<EffectView> {
    let s = expanded(raw);
    let start = name_start(d.chars@, d.head as int);
    seq![
        EffectView::Apply(
            seq![
                ChangeView {
                    at: start,
                    removed: d.chars@.subrange(start, d.head as int),
                    inserted: s.out,
                },
            ],
        ),
        match first_of(s.stops) {
            Some(t) => EffectView::Select {
                anchor: lesser(start + t.start, usize::MAX as int),
                head: lesser(start + t.end, usize::MAX as int),
            },
            None => EffectView::Caret(lesser(start + s.out.len(), usize::MAX as int)),
        },
    ]
}

/// What follows the insertion: the item's further changes, or a question for them, and its command.
pub open spec fn followed(item: ItemView, path: Option<Seq<char>>, lsp: bool) -> Seq<EffectView> {
    let more = if item.edits.len() > 0 {
        match path {
            Some(p) => seq![EffectView::ApplyWorkspaceEdit(seq![(p, item.edits)])],
            None => Seq::empty(),
        }
    } else {
        match item.data {
            Some(data) => if lsp {
                seq![
                    EffectView::Ask(
                        RequestView::ResolveCompletion { label: item.label, data },
                    ),
                ]
            } else {
                Seq::empty()
            },
            None => Seq::empty(),
        }
    };
    match item.command {
        Some((command, arguments)) => more.push(
            EffectView::Ask(RequestView::ExecuteCommand { command, arguments }),
        ),
        None => more,
    }
}

/// What accepting the selected item asks for.
pub open spec fn accepted(
    v: CompletionView,
    d: Option<&Doc>,
    sels: Seq<Selection>,
    path: Option<Seq<char>>,
    lsp: bool,
) -> Seq<EffectView> {
    let gone = seq![EffectView::SetPopup(None)];
    match (v.selected_item(), d) {
        (Some(item), Some(d)) => gone + (if item.is_snippet {
            snipped(d, item.insert_text)
        } else {
            seq![inserted(d, sels, item.insert_text)]
        }) + followed(item, path, lsp),
        _ => gone,
    }
}

/// What the plugin contributes.
pub open spec fn contributed() -> Offer {
    Offer::none()
        .command("lsp.completion"@, "Edit: Trigger Suggest"@)
        .keybinding("ctrl+space"@, "lsp.completion"@)
}

impl CompletionPlugin {
    /// What the plugin contributes.
    pub fn contributions() -> (r: Contributions)
        ensures
            r@ == contributed(),
    {
        Contributions::builder()
            .command("lsp.completion", "Edit: Trigger Suggest")
            .keybinding("ctrl+space", "lsp.completion")
    }

    pub open spec fn wf(&self) -> bool {
        match self.state {
            Some(s) => s@.wf(),
            None => true,
        }
    }

    /// Whether this is what a step says.
    pub open spec fn is(&self, step: CompletionStep) -> bool {
        state_view(self.state) == step.state && self.is_incomplete == step.incomplete
    }

    /// No popup.
    pub fn new() -> (r: CompletionPlugin)
        ensures
            r.state is None,
            !r.is_incomplete,
            r.wf(),
    {
        CompletionPlugin { state: None, is_incomplete: false }
    }

    /// Take the popup down.
    fn dismiss(&mut self) -> (r: Vec<Effect>)
        ensures
            final(self).is(CompletionStep::dismissed(old(self).is_incomplete)),
            effects_view(r@) == CompletionStep::dismissed(old(self).is_incomplete).out,
    {
        self.state = None;
        let mut out: Vec<Effect> = no_effects();
        emit(&mut out, Effect::SetPopup(None));
        out
    }

    /// Show items that came from the server.
    pub fn open(&mut self, items: Vec<CompletionItem>, is_incomplete: bool, doc: Option<&Doc>) -> (r:
        Vec<Effect>)
        requires
            opt_wf(doc),
            old(self).wf(),
        ensures
            final(self).wf(),
            final(self).is(
                CompletionStep::opened(
                    state_view(old(self).state),
                    items_view(items@),
                    is_incomplete,
                    doc,
                ),
            ),
            effects_view(r@) == CompletionStep::opened(
                state_view(old(self).state),
                items_view(items@),
                is_incomplete,
                doc,
            ).out,
    {
        self.is_incomplete = is_incomplete;
        let mut out: Vec<Effect> = no_effects();
        assert(items_view(items@).len() == items@.len());
        let d: &Doc = match doc {
            Some(d) => d,
            None => return out,
        };
        if items.len() == 0 {
            return out;
        }
        let anchor: usize = find_name_start(d);
        let prefix: String = crate::text::string_of(d.chars.as_slice(), anchor, d.head);
        let s: CompletionState = CompletionState::new(items, anchor, prefix);
        if s.is_empty() {
            return out;
        }
        emit(&mut out, popup_of(&s));
        self.state = Some(s);
        out
    }

    /// Find the matches again after a change.
    fn refresh(&mut self, doc: Option<&Doc>) -> (r: Vec<Effect>)
        requires
            opt_wf(doc),
            old(self).wf(),
            old(self).state is Some,
        ensures
            final(self).wf(),
            final(self).is(
                CompletionStep::refreshed(old(self).state->0@, old(self).is_incomplete, doc),
            ),
            effects_view(r@) == CompletionStep::refreshed(
                old(self).state->0@,
                old(self).is_incomplete,
                doc,
            ).out,
    {
        let mut s: CompletionState = match self.state.take() {
            Some(s) => s,
            None => return self.dismiss(),
        };
        let d: &Doc = match doc {
            Some(d) => d,
            None => return self.dismiss(),
        };
        if d.head < s.anchor || !names_only(&d.chars, s.anchor, d.head) {
            return self.dismiss();
        }
        s.prefix = crate::text::string_of(d.chars.as_slice(), s.anchor, d.head);
        s.refilter();
        if s.is_empty() {
            return self.dismiss();
        }
        let mut out: Vec<Effect> = no_effects();
        emit(&mut out, popup_of(&s));
        self.state = Some(s);
        out
    }

    /// Run a command; none where it is not the popup's.
    pub fn run_command(&self, command_id: &str, lsp: bool) -> (r: Option<Vec<Effect>>)
        ensures
            r is Some == (command_id@ == "lsp.completion"@),
            r is Some ==> effects_view(r->0@) == asks(lsp),
    {
        if same(command_id, "lsp.completion") {
            Some(ask_if(lsp))
        } else {
            None
        }
    }

    /// The active document's text changed.
    pub fn on_change(&mut self, doc: Option<&Doc>, lsp: bool) -> (r: Vec<Effect>)
        requires
            opt_wf(doc),
            old(self).wf(),
        ensures
            final(self).wf(),
            ({
                let step = changed(
                    state_view(old(self).state),
                    old(self).is_incomplete,
                    doc,
                    lsp,
                );
                final(self).is(step) && effects_view(r@) == step.out
            }),
    {
        if lsp && ends_in_trigger(doc) {
            ask_if(true)
        } else if self.state.is_some() {
            if self.is_incomplete && lsp {
                ask_if(true)
            } else {
                self.refresh(doc)
            }
        } else {
            no_effects()
        }
    }

    /// The active document's caret moved.
    pub fn on_cursor(&mut self, doc: Option<&Doc>) -> (r: Vec<Effect>)
        requires
            opt_wf(doc),
            old(self).wf(),
        ensures
            final(self).wf(),
            match old(self).state {
                Some(s) => {
                    let step = CompletionStep::refreshed(s@, old(self).is_incomplete, doc);
                    final(self).is(step) && effects_view(r@) == step.out
                },
                None => *final(self) == *old(self) && effects_view(r@) == Seq::<
                    EffectView,
                >::empty(),
            },
    {
        if self.state.is_some() {
            self.refresh(doc)
        } else {
            no_effects()
        }
    }

    /// Another document is active, or the document was read again: the popup is taken down.
    pub fn on_leave(&mut self) -> (r: Vec<Effect>)
        ensures
            final(self).state is None,
            final(self).is_incomplete == old(self).is_incomplete,
            effects_view(r@) == if old(self).state is Some {
                seq![EffectView::SetPopup(None)]
            } else {
                Seq::empty()
            },
    {
        if self.state.is_some() {
            self.dismiss()
        } else {
            no_effects()
        }
    }

    /// Handle a key while the popup is up; none where the key goes on to the text. `sels` are the
    /// document's selections, and `path` is its file.
    pub fn on_popup_key(
        &mut self,
        key: Key,
        doc: Option<&Doc>,
        sels: &[Selection],
        path: Option<&str>,
        lsp: bool,
    ) -> (r: Option<Vec<Effect>>)
        requires
            opt_wf(doc),
            old(self).wf(),
        ensures
            final(self).wf(),
            ({
                let step = pressed(
                    state_view(old(self).state),
                    old(self).is_incomplete,
                    key,
                    doc,
                    sels@,
                    str_view(path),
                    lsp,
                );
                match step {
                    Some(step) => r is Some && final(self).is(step) && effects_view(r->0@)
                        == step.out,
                    None => r is None && *final(self) == *old(self),
                }
            }),
    {
        if self.state.is_none() {
            return None;
        }
        match key.code {
            KeyCode::Down => Some(self.step(1)),
            KeyCode::Up => Some(self.step(-1)),
            KeyCode::Esc => Some(self.dismiss()),
            KeyCode::Enter => Some(self.accept(doc, sels, path, lsp)),
            KeyCode::Tab => Some(self.accept(doc, sels, path, lsp)),
            _ => None,
        }
    }

    /// Move the selection.
    fn step(&mut self, delta: isize) -> (r: Vec<Effect>)
        requires
            old(self).wf(),
            old(self).state is Some,
        ensures
            final(self).wf(),
            state_view(final(self).state) == Some(old(self).state->0@.moved(delta as int)),
            final(self).is_incomplete == old(self).is_incomplete,
            effects_view(r@) == seq![shown(old(self).state->0@.moved(delta as int))],
    {
        let mut out: Vec<Effect> = no_effects();
        if let Some(mut s) = self.state.take() {
            s.move_sel(delta);
            emit(&mut out, popup_of(&s));
            self.state = Some(s);
        }
        out
    }

    /// Accept the selected item.
    fn accept(&mut self, doc: Option<&Doc>, sels: &[Selection], path: Option<&str>, lsp: bool) -> (r:
        Vec<Effect>)
        requires
            opt_wf(doc),
            old(self).state is Some,
        ensures
            final(self).state is None,
            final(self).is_incomplete == old(self).is_incomplete,
            effects_view(r@) == accepted(
                old(self).state->0@,
                doc,
                sels@,
                str_view(path),
                lsp,
            ),
    {
        let mut out: Vec<Effect> = no_effects();
        emit(&mut out, Effect::SetPopup(None));
        let taken: Option<CompletionState> = self.state.take();
        let item: CompletionItem = match taken {
            Some(s) => match s.take_selected() {
                Some(item) => item,
                None => return out,
            },
            None => return out,
        };
        let d: &Doc = match doc {
            Some(d) => d,
            None => return out,
        };
        let ghost iv = item@;
        let ghost start = effects_view(out@);
        if item.is_snippet {
            insert_snippet(d, item.insert_text.as_str(), &mut out);
            assert(effects_view(out@) =~= start + snipped(d, iv.insert_text));
        } else {
            emit(&mut out, insert_text(d, sels, item.insert_text.as_str()));
            assert(effects_view(out@) =~= start + seq![inserted(d, sels@, iv.insert_text)]);
        }
        follow(item, path, lsp, &mut out);
        out
    }
}

/// The popup after the active document's text changed.
pub open spec fn changed(
    state: Option<CompletionView>,
    incomplete: bool,
    d: Option<&Doc>,
    lsp: bool,
) -> CompletionStep {
    if lsp && at_trigger(d) {
        CompletionStep { state, incomplete, out: asks(true) }
    } else {
        match state {
            Some(v) => if incomplete && lsp {
                CompletionStep { state, incomplete, out: asks(true) }
            } else {
                CompletionStep::refreshed(v, incomplete, d)
            },
            None => CompletionStep { state, incomplete, out: Seq::empty() },
        }
    }
}

/// What a key does while the popup is up; nothing where it goes on to the text.
pub open spec fn pressed(
    state: Option<CompletionView>,
    incomplete: bool,
    key: Key,
    d: Option<&Doc>,
    sels: Seq<Selection>,
    path: Option<Seq<char>>,
    lsp: bool,
) -> Option<CompletionStep> {
    match state {
        None => None,
        Some(v) => match key.code {
            KeyCode::Down => Some(
                CompletionStep { state: Some(v.moved(1)), incomplete, out: seq![shown(v.moved(1))] },
            ),
            KeyCode::Up => Some(
                CompletionStep {
                    state: Some(v.moved(-1)),
                    incomplete,
                    out: seq![shown(v.moved(-1))],
                },
            ),
            KeyCode::Esc => Some(CompletionStep::dismissed(incomplete)),
            KeyCode::Enter => Some(
                CompletionStep {
                    state: None,
                    incomplete,
                    out: accepted(v, d, sels, path, lsp),
                },
            ),
            KeyCode::Tab => Some(
                CompletionStep {
                    state: None,
                    incomplete,
                    out: accepted(v, d, sels, path, lsp),
                },
            ),
            _ => None,
        },
    }
}

/// The request for completion, where there is a server.
pub open spec fn asks(lsp: bool) -> Seq<EffectView> {
    if lsp {
        seq![EffectView::Ask(RequestView::Completion)]
    } else {
        Seq::empty()
    }
}

/// The request for completion, where there is a server.
fn ask_if(lsp: bool) -> (r: Vec<Effect>)
    ensures
        effects_view(r@) == asks(lsp),
{
    let mut out: Vec<Effect> = no_effects();
    if lsp {
        emit(&mut out, Effect::Ask(Request::Completion));
    }
    out
}

/// Whether the character before a document's caret asks for completion.
fn ends_in_trigger(doc: Option<&Doc>) -> (r: bool)
    requires
        opt_wf(doc),
    ensures
        r == at_trigger(doc),
{
    match doc {
        None => false,
        Some(d) => {
            if d.head == 0 {
                return false;
            }
            let prev2: Option<char> = if d.head >= 2 {
                Some(d.chars[d.head - 2])
            } else {
                None
            };
            is_trigger(d.chars[d.head - 1], prev2)
        },
    }
}

/// Where the name before a document's caret starts.
pub fn find_name_start(d: &Doc) -> (r: usize)
    requires
        d.wf(),
    ensures
        r == name_start(d.chars@, d.head as int),
        r <= d.head,
{
    let mut p: usize = d.head;
    while p > 0 && is_ident(d.chars[p - 1])
        invariant
            p <= d.head <= d.chars@.len(),
            name_start(d.chars@, d.head as int) == name_start(d.chars@, p as int),
        decreases p,
    {
        p -= 1;
    }
    p
}

/// Whether all characters from `from` to `to` are parts of names.
fn names_only(chars: &Vec<char>, from: usize, to: usize) -> (r: bool)
    requires
        from <= to <= chars@.len(),
    ensures
        r == all_names(chars@.subrange(from as int, to as int)),
{
    let ghost s = chars@.subrange(from as int, to as int);
    let mut i: usize = from;
    while i < to
        invariant
            from <= i <= to <= chars@.len(),
            s == chars@.subrange(from as int, to as int),
            forall|k: int| 0 <= k < i - from ==> is_name(#[trigger] s[k]),
        decreases to - i,
    {
        if !is_ident(chars[i]) {
            assert(s[i - from] == chars@[i as int]);
            return false;
        }
        assert(s[i - from] == chars@[i as int]);
        i += 1;
    }
    true
}

/// The request that shows the matches.
fn popup_of(s: &CompletionState) -> (r: Effect)
    requires
        s@.wf(),
    ensures
        r@ == shown(s@),
{
    if s.filtered.len() == 0 {
        return Effect::SetPopup(None);
    }
    let mut rows: Vec<PopupRow> = Vec::new();
    let mut i: usize = 0;
    while i < s.filtered.len()
        invariant
            i <= s.filtered.len(),
            s@.wf(),
            rows@.len() == i,
            forall|k: int|
                0 <= k < i ==> ((#[trigger] rows@[k]).kind@, rows@[k].label@, opt_text(rows@[k].detail))
                    == match_rows(s@.items, s@.filtered)[k],
        decreases s.filtered.len() - i,
    {
        assert(s@.filtered[i as int] < s@.items.len());
        let item: &CompletionItem = &s.items[s.filtered[i]];
        assert(s@.items[s.filtered@[i as int] as int] == item@);
        rows.push(
            PopupRow {
                kind: kind_label(item.kind).to_owned(),
                label: item.label.clone(),
                detail: copy_opt(&item.detail),
            },
        );
        i += 1;
    }
    assert(popup_rows(rows@) =~= match_rows(s@.items, s@.filtered));
    Effect::SetPopup(
        Some(
            Popup { owner: "completion".to_owned(), anchor: s.anchor, rows, selected: s.selected },
        ),
    )
}

/// The request that inserts a plain item.
fn insert_text(d: &Doc, sels: &[Selection], text: &str) -> (r: Effect)
    requires
        d.wf(),
    ensures
        r@ == inserted(d, sels@, text@),
{
    let start: usize = find_name_start(d);
    let mut edits: Vec<SpanEdit> = Vec::new();
    let mut i: usize = 0;
    while i < sels.len()
        invariant
            i <= sels.len(),
            start == name_start(d.chars@, d.head as int),
            edits@.len() == i,
            forall|k: int|
                0 <= k < i ==> ((#[trigger] edits@[k]).start as int, edits@[k].end as int, edits@[k].text@)
                    == inserted(d, sels@, text@)->EditSelections_0[k],
        decreases sels.len() - i,
    {
        let sel: Selection = sels[i];
        edits.push(
            if sel.head == d.head {
                SpanEdit { start, end: d.head, text: text.to_owned() }
            } else {
                SpanEdit { start: sel.from(), end: sel.to(), text: text.to_owned() }
            },
        );
        i += 1;
    }
    assert(spans_of(edits@) =~= inserted(d, sels@, text@)->EditSelections_0);
    Effect::EditSelections(edits)
}

/// Insert a snippet.
fn insert_snippet(d: &Doc, raw: &str, out: &mut Vec<Effect>)
    requires
        d.wf(),
    ensures
        effects_view(final(out)@) == effects_view(old(out)@) + snipped(d, raw@),
{
    let snip: Snippet = expand(raw);
    let start: usize = find_name_start(d);
    let removed: String = crate::text::string_of(d.chars.as_slice(), start, d.head);
    let mut changes: Vec<Change> = Vec::new();
    let len: usize = char_count(snip.text.as_str());
    let after: Effect = match snip.first_stop() {
        Some(t) => Effect::Select {
            anchor: sum_within(start, t.range.0, usize::MAX),
            head: sum_within(start, t.range.1, usize::MAX),
        },
        None => Effect::Caret(sum_within(start, len, usize::MAX)),
    };
    changes.push(Change { at: start, removed, inserted: snip.text });
    assert(changes_view(changes@) =~= seq![
        ChangeView {
            at: start as int,
            removed: d.chars@.subrange(start as int, d.head as int),
            inserted: expanded(raw@).out,
        },
    ]);
    emit(out, Effect::Apply(changes));
    emit(out, after);
    assert(effects_view(out@) =~= effects_view(old(out)@) + snipped(d, raw@));
}

/// Ask for what follows the insertion.
fn follow(item: CompletionItem, path: Option<&str>, lsp: bool, out: &mut Vec<Effect>)
    ensures
        effects_view(final(out)@) == effects_view(old(out)@) + followed(
            item@,
            str_view(path),
            lsp,
        ),
{
    let ghost iv = item@;
    let ghost start = effects_view(out@);
    let ghost pv = str_view(path);
    assert(start + Seq::<EffectView>::empty() =~= start);
    assert(iv.edits.len() == item.additional_edits@.len());
    if item.additional_edits.len() > 0 {
        if let Some(p) = path {
            let mut files: Vec<FileEdit> = Vec::new();
            files.push(FileEdit { path: p.to_owned(), edits: item.additional_edits });
            assert(files_view(files@) =~= seq![(p@, iv.edits)]);
            emit(out, Effect::ApplyWorkspaceEdit(WorkspaceEdit { changes: files }));
        }
    } else if let Some(data) = item.data {
        if lsp {
            emit(out, Effect::Ask(Request::ResolveCompletion { label: item.label, data }));
        }
    }
    if let Some(c) = item.command {
        emit(out, Effect::Ask(Request::ExecuteCommand(c)));
    }
    assert(effects_view(out@) =~= start + followed(iv, pv, lsp));
}

/// The popup stands over the name before the caret, and what is typed of the name is what was
/// matched.
pub proof fn the_popup_covers_the_name(s: Seq<char>, head: int)
    requires
        0 <= head <= s.len(),
    ensures
        all_names(s.subrange(name_start(s, head), head)),
        name_start(s, head) > 0 ==> !is_name(s[name_start(s, head) - 1]),
{
    lemma_name_start(s, head);
    lemma_name_start_stops(s, head);
}

proof fn lemma_name_start_stops(s: Seq<char>, p: int)
    requires
        0 <= p <= s.len(),
    ensures
        name_start(s, p) > 0 ==> !is_name(s[name_start(s, p) - 1]),
    decreases p,
{
    if p > 0 && is_name(s[p - 1]) {
        lemma_name_start_stops(s, p - 1);
    }
}

} // verus!
