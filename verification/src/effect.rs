//! What plugins ask of the editor.

use vstd::prelude::*;

use crate::doc::Doc;
use crate::protocol::{EditView, Location, LocationView, Request, RequestView, WorkspaceEdit};
use crate::text::texts_of;
use crate::ui::{
    DecorationSet, DecorationView, PanelContent, PanelView, PickerRequest, PickerView, Popup,
    PopupView, Prompt, PromptView,
};

verus! {

/// One replacement in a document: the characters `removed` at `at` give way to `inserted`.
#[derive(Debug, PartialEq)]
pub struct Change {
    pub at: usize,
    pub removed: String,
    pub inserted: String,
}

/// One span of a document to be replaced.
#[derive(Debug, PartialEq)]
pub struct SpanEdit {
    pub start: usize,
    pub end: usize,
    pub text: String,
}

/// The terminal dock as it is drawn.
#[derive(Debug, PartialEq)]
pub struct TerminalView {
    pub open: bool,
    pub minimized: bool,
    /// The focused tab.
    pub active: usize,
    /// The terminals, in tab order.
    pub order: Vec<u64>,
}

/// A request to the editor, performed in order. Positions are in the document at hand: the active
/// one, or the one that an event is about.
#[derive(Debug, PartialEq)]
pub enum Effect {
    /// Apply the changes as one transaction.
    Apply(Vec<Change>),
    /// Collapse the selection to a caret at the position, cut down to the text.
    Caret(usize),
    /// Select from `anchor` to `head`, the head cut down to the text.
    Select { anchor: usize, head: usize },
    /// Put the caret on the first non-blank of the line.
    CaretFirstNonBlank(usize),
    /// Put the caret on the first non-blank of the line that the position, cut down to the text, is
    /// on.
    CaretFirstNonBlankAt(usize),
    /// Mark the first non-blank of the line.
    MarkFirstNonBlank(usize),
    /// Put the caret on the first non-blank of the line that the mark, cut down to the text, is on.
    CaretFirstNonBlankAtMark,
    /// Put the caret at the position, no further than the content of its line.
    CaretInLine(usize),
    /// Put a caret past the last character of its line back on it.
    ClampCaret,
    /// Join the caret's line with the next, this many times.
    JoinLines(usize),
    /// Move the caret by lines, keeping its column.
    MoveLines { delta: isize, extend: bool },
    /// Make the line the first in view.
    SetScroll(usize),
    /// Run a command.
    Execute(String),
    /// Run a command this many times.
    ExecuteTimes(String, usize),
    /// Show a message.
    Notify(String),
    DismissPrompt,
    /// Remove the document's decorations of a kind.
    ClearDecorations(String),
    /// Mark the document as saved or unsaved.
    SetDirty(bool),
    ClipboardWrite(String),
    /// Press the recorded keys again, this many times.
    Replay(usize),
    /// Apply the changes to a document as one transaction.
    ApplyTo { doc: u64, changes: Vec<Change> },
    /// Replace each selection's span, in order, and put a caret behind each replacement.
    EditSelections(Vec<SpanEdit>),
    /// Add a selection, bring the set in order, and make the added one primary.
    AddSelection { anchor: usize, head: usize },
    /// Select the ranges; the first that starts at or after `near` is primary.
    SelectRanges { ranges: Vec<(usize, usize)>, near: usize },
    /// Put a layer of decorations on the document.
    SetDecorations { layer: String, set: DecorationSet },
    SetPrompt(Prompt),
    SetPanel { panel: String, content: PanelContent },
    SetStatus { item: String, text: String },
    /// Show the popup, or none.
    SetPopup(Option<Popup>),
    /// Show a text in a box.
    ShowInfo(String),
    OpenPicker(PickerRequest),
    OpenPath(String),
    /// Open a file in a viewer.
    OpenViewer { path: String, viewer: String },
    /// Open a file at a line, counted from zero.
    OpenPathAt { path: String, line: usize },
    OpenLocation(Location),
    Ask(Request),
    ApplyWorkspaceEdit(WorkspaceEdit),
    ToggleTheme,
    CloseTerminal(u64),
    SetTerminalFocus(bool),
    SetTerminalView(TerminalView),
    /// Search the project in the background, for at most `cap` hits.
    Search { job: String, query: String, case_sensitive: bool, cap: usize },
    /// Replace the matches of a pattern in the files, in the background.
    Rewrite {
        job: String,
        paths: Vec<String>,
        query: String,
        case_sensitive: bool,
        replacement: String,
    },
    /// Run `git` with the arguments, if any, and then `git status`, in the background.
    Git { job: String, args: Vec<String> },
}

/// What a change is.
pub struct ChangeView {
    pub at: int,
    pub removed: Seq<char>,
    pub inserted: Seq<char>,
}

/// What a request is.
pub enum EffectView {
    Apply(Seq<ChangeView>),
    Caret(int),
    Select { anchor: int, head: int },
    CaretFirstNonBlank(int),
    CaretFirstNonBlankAt(int),
    MarkFirstNonBlank(int),
    CaretFirstNonBlankAtMark,
    CaretInLine(int),
    ClampCaret,
    JoinLines(int),
    MoveLines { delta: int, extend: bool },
    SetScroll(int),
    Execute(Seq<char>),
    ExecuteTimes(Seq<char>, int),
    Notify(Seq<char>),
    DismissPrompt,
    ClearDecorations(Seq<char>),
    SetDirty(bool),
    ClipboardWrite(Seq<char>),
    Replay(int),
    ApplyTo { doc: u64, changes: Seq<ChangeView> },
    EditSelections(Seq<(int, int, Seq<char>)>),
    AddSelection { anchor: int, head: int },
    SelectRanges { ranges: Seq<(usize, usize)>, near: int },
    SetDecorations { layer: Seq<char>, set: DecorationView },
    SetPrompt(PromptView),
    SetPanel { panel: Seq<char>, content: PanelView },
    SetStatus { item: Seq<char>, text: Seq<char> },
    SetPopup(Option<PopupView>),
    ShowInfo(Seq<char>),
    OpenPicker(PickerView),
    OpenPath(Seq<char>),
    OpenViewer { path: Seq<char>, viewer: Seq<char> },
    OpenPathAt { path: Seq<char>, line: int },
    OpenLocation(LocationView),
    Ask(RequestView),
    ApplyWorkspaceEdit(EditView),
    ToggleTheme,
    CloseTerminal(u64),
    SetTerminalFocus(bool),
    SetTerminalView { open: bool, minimized: bool, active: int, order: Seq<u64> },
    Search { job: Seq<char>, query: Seq<char>, case_sensitive: bool, cap: int },
    Rewrite {
        job: Seq<char>,
        paths: Seq<Seq<char>>,
        query: Seq<char>,
        case_sensitive: bool,
        replacement: Seq<char>,
    },
    Git { job: Seq<char>, args: Seq<Seq<char>> },
}

impl View for Change {
    type V = ChangeView;

    open spec fn view(&self) -> ChangeView {
        ChangeView { at: self.at as int, removed: self.removed@, inserted: self.inserted@ }
    }
}

pub open spec fn changes_view(v: Seq<Change>) -> Seq<ChangeView> {
    v.map_values(|c: Change| c@)
}

pub open spec fn spans_of(v: Seq<SpanEdit>) -> Seq<(int, int, Seq<char>)> {
    v.map_values(|e: SpanEdit| (e.start as int, e.end as int, e.text@))
}

impl View for Effect {
    type V = EffectView;

    open spec fn view(&self) -> EffectView {
        match *self {
            Effect::Apply(v) => EffectView::Apply(changes_view(v@)),
            Effect::Caret(p) => EffectView::Caret(p as int),
            Effect::Select { anchor, head } => EffectView::Select {
                anchor: anchor as int,
                head: head as int,
            },
            Effect::CaretFirstNonBlank(l) => EffectView::CaretFirstNonBlank(l as int),
            Effect::CaretFirstNonBlankAt(p) => EffectView::CaretFirstNonBlankAt(p as int),
            Effect::MarkFirstNonBlank(l) => EffectView::MarkFirstNonBlank(l as int),
            Effect::CaretFirstNonBlankAtMark => EffectView::CaretFirstNonBlankAtMark,
            Effect::CaretInLine(p) => EffectView::CaretInLine(p as int),
            Effect::ClampCaret => EffectView::ClampCaret,
            Effect::JoinLines(n) => EffectView::JoinLines(n as int),
            Effect::MoveLines { delta, extend } => EffectView::MoveLines {
                delta: delta as int,
                extend,
            },
            Effect::SetScroll(l) => EffectView::SetScroll(l as int),
            Effect::Execute(c) => EffectView::Execute(c@),
            Effect::ExecuteTimes(c, n) => EffectView::ExecuteTimes(c@, n as int),
            Effect::Notify(t) => EffectView::Notify(t@),
            Effect::DismissPrompt => EffectView::DismissPrompt,
            Effect::ClearDecorations(k) => EffectView::ClearDecorations(k@),
            Effect::SetDirty(b) => EffectView::SetDirty(b),
            Effect::ClipboardWrite(t) => EffectView::ClipboardWrite(t@),
            Effect::Replay(n) => EffectView::Replay(n as int),
            Effect::ApplyTo { doc, changes } => EffectView::ApplyTo {
                doc,
                changes: changes_view(changes@),
            },
            Effect::EditSelections(v) => EffectView::EditSelections(spans_of(v@)),
            Effect::AddSelection { anchor, head } => EffectView::AddSelection {
                anchor: anchor as int,
                head: head as int,
            },
            Effect::SelectRanges { ranges, near } => EffectView::SelectRanges {
                ranges: ranges@,
                near: near as int,
            },
            Effect::SetDecorations { layer, set } => EffectView::SetDecorations {
                layer: layer@,
                set: set@,
            },
            Effect::SetPrompt(p) => EffectView::SetPrompt(p@),
            Effect::SetPanel { panel, content } => EffectView::SetPanel {
                panel: panel@,
                content: content@,
            },
            Effect::SetStatus { item, text } => EffectView::SetStatus { item: item@, text: text@ },
            Effect::SetPopup(p) => EffectView::SetPopup(
                match p {
                    Some(p) => Some(p@),
                    None => None,
                },
            ),
            Effect::ShowInfo(t) => EffectView::ShowInfo(t@),
            Effect::OpenPicker(r) => EffectView::OpenPicker(r@),
            Effect::OpenPath(p) => EffectView::OpenPath(p@),
            Effect::OpenViewer { path, viewer } => EffectView::OpenViewer {
                path: path@,
                viewer: viewer@,
            },
            Effect::OpenPathAt { path, line } => EffectView::OpenPathAt {
                path: path@,
                line: line as int,
            },
            Effect::OpenLocation(l) => EffectView::OpenLocation(l@),
            Effect::Ask(r) => EffectView::Ask(r@),
            Effect::ApplyWorkspaceEdit(e) => EffectView::ApplyWorkspaceEdit(e@),
            Effect::ToggleTheme => EffectView::ToggleTheme,
            Effect::CloseTerminal(id) => EffectView::CloseTerminal(id),
            Effect::SetTerminalFocus(b) => EffectView::SetTerminalFocus(b),
            Effect::SetTerminalView(v) => EffectView::SetTerminalView {
                open: v.open,
                minimized: v.minimized,
                active: v.active as int,
                order: v.order@,
            },
            Effect::Search { job, query, case_sensitive, cap } => EffectView::Search {
                job: job@,
                query: query@,
                case_sensitive,
                cap: cap as int,
            },
            Effect::Rewrite { job, paths, query, case_sensitive, replacement } =>
                EffectView::Rewrite {
                job: job@,
                paths: texts_of(paths@),
                query: query@,
                case_sensitive,
                replacement: replacement@,
            },
            Effect::Git { job, args } => EffectView::Git { job: job@, args: texts_of(args@) },
        }
    }
}

pub open spec fn effects_view(v: Seq<Effect>) -> Seq<EffectView> {
    v.map_values(|e: Effect| e@)
}

/// Append a request.
pub fn emit(out: &mut Vec<Effect>, e: Effect)
    ensures
        effects_view(final(out)@) == effects_view(old(out)@).push(e@),
{
    out.push(e);
    assert(effects_view(out@) =~= effects_view(old(out)@).push(e@));
}

/// No requests yet.
pub fn no_effects() -> (r: Vec<Effect>)
    ensures
        effects_view(r@) == Seq::<EffectView>::empty(),
{
    let r: Vec<Effect> = Vec::new();
    assert(effects_view(r@) =~= Seq::empty());
    r
}

/// The change that puts `text` in the place of the characters from `a` to `b`, both cut down to the
/// text.
pub open spec fn replacement(d: &Doc, a: int, b: int, text: Seq<char>) -> ChangeView {
    ChangeView { at: d.within(a), removed: d.slice(a, b), inserted: text }
}

/// One replacement as a request.
pub open spec fn replaced(d: &Doc, a: int, b: int, text: Seq<char>) -> EffectView {
    EffectView::Apply(seq![replacement(d, a, b, text)])
}

/// The change that puts `text` in the place of the characters from `start` to `end`.
pub fn replacing(d: &Doc, start: usize, end: usize, text: String) -> (r: Effect)
    ensures
        r@ == replaced(d, start as int, end as int, text@),
{
    let c: Change = Change {
        at: d.clamp(start),
        removed: d.text_between(start, end),
        inserted: text,
    };
    let mut v: Vec<Change> = Vec::new();
    v.push(c);
    assert(changes_view(v@) =~= seq![replacement(d, start as int, end as int, text@)]);
    Effect::Apply(v)
}

/// Whether a change is one of a text: what it removes stands where it says.
pub open spec fn is_change_of(c: ChangeView, text: Seq<char>) -> bool {
    &&& 0 <= c.at
    &&& c.at + c.removed.len() <= text.len()
    &&& text.subrange(c.at, c.at + c.removed.len()) == c.removed
}

/// A text after a change.
pub open spec fn after(text: Seq<char>, c: ChangeView) -> Seq<char> {
    text.take(c.at) + c.inserted + text.skip(c.at + c.removed.len())
}

/// A text after the changes of one transaction, which are in order and at places of the text before
/// any of them.
pub open spec fn after_all(text: Seq<char>, cs: Seq<ChangeView>) -> Seq<char>
    decreases cs.len(),
{
    if cs.len() == 0 {
        text
    } else {
        after_all(after(text, cs.last()), cs.drop_last())
    }
}

/// A document's text after requests.
pub open spec fn edited(text: Seq<char>, out: Seq<EffectView>) -> Seq<char>
    decreases out.len(),
{
    if out.len() == 0 {
        text
    } else {
        match out.last() {
            EffectView::Apply(cs) => after_all(edited(text, out.drop_last()), cs),
            _ => edited(text, out.drop_last()),
        }
    }
}

/// One request does what it says to the text, after those before it.
pub proof fn lemma_edited_push(text: Seq<char>, out: Seq<EffectView>, e: EffectView)
    ensures
        edited(text, out.push(e)) == match e {
            EffectView::Apply(cs) => after_all(edited(text, out), cs),
            _ => edited(text, out),
        },
{
    assert(out.push(e).drop_last() =~= out);
}

/// A replacement puts its text in the place of the characters from `a` to `b`, and keeps the others.
pub proof fn replacements_replace(d: &Doc, a: int, b: int, text: Seq<char>)
    requires
        0 <= a <= b <= d.size(),
    ensures
        replaced(d, a, b, text) matches EffectView::Apply(cs) && cs.len() == 1 && is_change_of(
            cs[0],
            d.chars@,
        ) && after_all(d.chars@, cs) == d.chars@.take(a) + text + d.chars@.skip(b),
{
    let c = replacement(d, a, b, text);
    let cs = seq![c];
    assert(d.slice(a, b) =~= d.chars@.subrange(a, b));
    assert(cs.drop_last() =~= Seq::empty());
    assert(after_all(after(d.chars@, c), cs.drop_last()) == after(d.chars@, c));
    assert(after_all(d.chars@, cs) == after(d.chars@, c));
    assert(after(d.chars@, c) =~= d.chars@.take(a) + text + d.chars@.skip(b));
}

/// Requests that edit nothing.
pub open spec fn calm(out: Seq<EffectView>) -> bool {
    forall|i: int| 0 <= i < out.len() ==> !((#[trigger] out[i]) is Apply)
}

/// Requests that edit nothing keep the text.
pub proof fn lemma_calm(text: Seq<char>, out: Seq<EffectView>)
    requires
        calm(out),
    ensures
        edited(text, out) == text,
    decreases out.len(),
{
    if out.len() > 0 {
        assert(!(out[out.len() - 1] is Apply));
        assert forall|i: int| 0 <= i < out.drop_last().len() implies !((
        #[trigger] out.drop_last()[i]) is Apply) by {
            assert(!(out[i] is Apply));
        }
        lemma_calm(text, out.drop_last());
    }
}

/// One replacement, before and after requests that edit nothing.
pub proof fn lemma_one_edit(
    d: &Doc,
    pre: Seq<EffectView>,
    a: int,
    b: int,
    text: Seq<char>,
    post: Seq<EffectView>,
)
    requires
        calm(pre),
        calm(post),
        0 <= a <= b <= d.size(),
    ensures
        edited(d.chars@, pre.push(replaced(d, a, b, text)) + post) == d.chars@.take(a) + text
            + d.chars@.skip(b),
    decreases post.len(),
{
    let r = pre.push(replaced(d, a, b, text));
    if post.len() == 0 {
        assert(r + post =~= r);
        lemma_calm(d.chars@, pre);
        lemma_edited_push(d.chars@, pre, replaced(d, a, b, text));
        replacements_replace(d, a, b, text);
    } else {
        assert((r + post).drop_last() =~= r + post.drop_last());
        assert(!(post[post.len() - 1] is Apply));
        assert forall|i: int| 0 <= i < post.drop_last().len() implies !((
        #[trigger] post.drop_last()[i]) is Apply) by {
            assert(!(post[i] is Apply));
        }
        lemma_one_edit(d, pre, a, b, text, post.drop_last());
    }
}

/// A transaction of one change is that change.
pub proof fn one_change_is_a_transaction(text: Seq<char>, c: ChangeView)
    ensures
        after_all(text, seq![c]) == after(text, c),
{
    assert(seq![c].drop_last() =~= Seq::empty());
    assert(after_all(after(text, c), Seq::<ChangeView>::empty()) == after(text, c));
}

} // verus!
