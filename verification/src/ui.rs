//! What plugins show: panels, viewer contents, prompts, pickers, popups and decorations.

use vstd::prelude::*;

verus! {

/// A piece of text in one style; without a style it is plain.
#[derive(Debug, PartialEq)]
pub struct Span {
    pub text: String,
    pub style: Option<String>,
}

/// A row of a panel. The payload is what a click on it hands back.
#[derive(Debug, PartialEq)]
pub struct PanelLine {
    pub spans: Vec<Span>,
    pub payload: Option<String>,
    pub depth: usize,
}

/// A panel's rows, and the selected one.
#[derive(Debug, PartialEq)]
pub struct PanelContent {
    pub lines: Vec<PanelLine>,
    pub selected: usize,
}

/// A viewer tab's status and rows.
#[derive(Debug, PartialEq)]
pub struct ViewerContent {
    pub status: Option<String>,
    pub lines: Vec<PanelLine>,
}

pub struct SpanView {
    pub text: Seq<char>,
    pub style: Option<Seq<char>>,
}

pub struct LineView {
    pub spans: Seq<SpanView>,
    pub payload: Option<Seq<char>>,
    pub depth: int,
}

pub struct PanelView {
    pub lines: Seq<LineView>,
    pub selected: int,
}

pub struct ViewerView {
    pub status: Option<Seq<char>>,
    pub lines: Seq<LineView>,
}

pub open spec fn opt_text(s: Option<String>) -> Option<Seq<char>> {
    match s {
        Some(s) => Some(s@),
        None => None,
    }
}

/// The text, where there is one.
pub open spec fn str_view(s: Option<&str>) -> Option<Seq<char>> {
    match s {
        Some(s) => Some(s@),
        None => None,
    }
}

impl View for Span {
    type V = SpanView;

    open spec fn view(&self) -> SpanView {
        SpanView { text: self.text@, style: opt_text(self.style) }
    }
}

pub open spec fn spans_view(v: Seq<Span>) -> Seq<SpanView> {
    v.map_values(|s: Span| s@)
}

impl View for PanelLine {
    type V = LineView;

    open spec fn view(&self) -> LineView {
        LineView {
            spans: spans_view(self.spans@),
            payload: opt_text(self.payload),
            depth: self.depth as int,
        }
    }
}

pub open spec fn lines_view(v: Seq<PanelLine>) -> Seq<LineView> {
    v.map_values(|l: PanelLine| l@)
}

impl View for PanelContent {
    type V = PanelView;

    open spec fn view(&self) -> PanelView {
        PanelView { lines: lines_view(self.lines@), selected: self.selected as int }
    }
}

impl View for ViewerContent {
    type V = ViewerView;

    open spec fn view(&self) -> ViewerView {
        ViewerView { status: opt_text(self.status), lines: lines_view(self.lines@) }
    }
}

/// A styled piece of text.
pub open spec fn styled(text: Seq<char>, style: Seq<char>) -> SpanView {
    SpanView { text, style: Some(style) }
}

/// A plain piece of text.
pub open spec fn unstyled(text: Seq<char>) -> SpanView {
    SpanView { text, style: None }
}

/// A row without a payload.
pub open spec fn row(spans: Seq<SpanView>) -> LineView {
    LineView { spans, payload: None, depth: 0 }
}

/// A row with a payload.
pub open spec fn row_with(spans: Seq<SpanView>, payload: Seq<char>) -> LineView {
    LineView { spans, payload: Some(payload), depth: 0 }
}

/// No rows, with a status that says why.
pub open spec fn status_view(text: Seq<char>) -> ViewerView {
    ViewerView { status: Some(text), lines: Seq::empty() }
}

/// An empty panel.
pub open spec fn empty_panel() -> PanelView {
    PanelView { lines: Seq::empty(), selected: 0 }
}

impl Span {
    pub fn new(text: String, style: &str) -> (r: Span)
        ensures
            r@ == styled(text@, style@),
    {
        Span { text, style: Some(style.to_owned()) }
    }

    pub fn plain(text: String) -> (r: Span)
        ensures
            r@ == unstyled(text@),
    {
        Span { text, style: None }
    }
}

impl PanelLine {
    /// A row of the given pieces.
    pub fn new(spans: Vec<Span>) -> (r: PanelLine)
        ensures
            r@ == row(spans_view(spans@)),
    {
        PanelLine { spans, payload: None, depth: 0 }
    }

    /// A row of one piece.
    pub fn one(span: Span) -> (r: PanelLine)
        ensures
            r@ == row(seq![span@]),
    {
        let mut spans: Vec<Span> = Vec::new();
        spans.push(span);
        assert(spans_view(spans@) =~= seq![span@]);
        PanelLine::new(spans)
    }

    /// A row of two pieces.
    pub fn two(a: Span, b: Span) -> (r: PanelLine)
        ensures
            r@ == row(seq![a@, b@]),
    {
        let mut spans: Vec<Span> = Vec::new();
        spans.push(a);
        spans.push(b);
        assert(spans_view(spans@) =~= seq![a@, b@]);
        PanelLine::new(spans)
    }

    /// A row of three pieces.
    pub fn three(a: Span, b: Span, c: Span) -> (r: PanelLine)
        ensures
            r@ == row(seq![a@, b@, c@]),
    {
        let mut spans: Vec<Span> = Vec::new();
        spans.push(a);
        spans.push(b);
        spans.push(c);
        assert(spans_view(spans@) =~= seq![a@, b@, c@]);
        PanelLine::new(spans)
    }

    /// The row with a payload.
    pub fn payload(self, payload: String) -> (r: PanelLine)
        ensures
            r@ == (LineView { payload: Some(payload@), ..self@ }),
    {
        PanelLine { spans: self.spans, payload: Some(payload), depth: self.depth }
    }
}

pub proof fn lemma_lines_push(v: Seq<PanelLine>, l: PanelLine)
    ensures
        lines_view(v.push(l)) == lines_view(v).push(l@),
{
    assert(lines_view(v.push(l)) =~= lines_view(v).push(l@));
}

/// Append a row.
pub fn push_line(lines: &mut Vec<PanelLine>, l: PanelLine)
    ensures
        lines_view(final(lines)@) == lines_view(old(lines)@).push(l@),
        final(lines)@.len() == old(lines)@.len() + 1,
{
    proof {
        lemma_lines_push(lines@, l);
    }
    lines.push(l);
}

/// No rows.
pub fn no_lines() -> (r: Vec<PanelLine>)
    ensures
        lines_view(r@) == Seq::<LineView>::empty(),
        r@.len() == 0,
{
    let r: Vec<PanelLine> = Vec::new();
    assert(lines_view(r@) =~= Seq::empty());
    r
}

impl PanelContent {
    /// An empty panel.
    pub fn empty() -> (r: PanelContent)
        ensures
            r@ == empty_panel(),
    {
        PanelContent { lines: no_lines(), selected: 0 }
    }
}

impl ViewerContent {
    /// No rows, with a status that says why.
    pub fn status_only(status: String) -> (r: ViewerContent)
        ensures
            r@ == status_view(status@),
    {
        ViewerContent { status: Some(status), lines: no_lines() }
    }
}

/// Where a prompt is drawn.
#[derive(Debug, Clone, Copy, PartialEq, Eq, Structural)]
pub enum Placement {
    TopRight,
    Center,
    /// In a panel of its owner, which draws it.
    Panel,
}

/// An input line of a prompt.
#[derive(Debug, PartialEq)]
pub struct PromptField {
    pub label: String,
    pub value: String,
}

/// A switch of a prompt.
#[derive(Debug, PartialEq)]
pub struct PromptToggle {
    pub label: String,
    pub on: bool,
}

/// An input box. While it is up its owner gets the keys.
#[derive(Debug, PartialEq)]
pub struct Prompt {
    pub owner: String,
    pub prompt_id: String,
    pub title: Option<String>,
    pub fields: Vec<PromptField>,
    pub focused: usize,
    pub toggles: Vec<PromptToggle>,
    pub status: Option<String>,
    pub footer: Option<String>,
    pub error: Option<String>,
    pub placement: Placement,
}

pub struct PromptView {
    pub owner: Seq<char>,
    pub prompt_id: Seq<char>,
    pub title: Option<Seq<char>>,
    /// Label and value of each input line.
    pub fields: Seq<(Seq<char>, Seq<char>)>,
    pub focused: int,
    /// Label and state of each switch.
    pub toggles: Seq<(Seq<char>, bool)>,
    pub status: Option<Seq<char>>,
    pub footer: Option<Seq<char>>,
    pub error: Option<Seq<char>>,
    pub placement: Placement,
}

pub open spec fn fields_view(v: Seq<PromptField>) -> Seq<(Seq<char>, Seq<char>)> {
    v.map_values(|f: PromptField| (f.label@, f.value@))
}

pub open spec fn toggles_view(v: Seq<PromptToggle>) -> Seq<(Seq<char>, bool)> {
    v.map_values(|t: PromptToggle| (t.label@, t.on))
}

impl View for Prompt {
    type V = PromptView;

    open spec fn view(&self) -> PromptView {
        PromptView {
            owner: self.owner@,
            prompt_id: self.prompt_id@,
            title: opt_text(self.title),
            fields: fields_view(self.fields@),
            focused: self.focused as int,
            toggles: toggles_view(self.toggles@),
            status: opt_text(self.status),
            footer: opt_text(self.footer),
            error: opt_text(self.error),
            placement: self.placement,
        }
    }
}

/// A prompt with nothing in it.
pub open spec fn blank_prompt(owner: Seq<char>, id: Seq<char>, placement: Placement) -> PromptView {
    PromptView {
        owner,
        prompt_id: id,
        title: None,
        fields: Seq::empty(),
        focused: 0,
        toggles: Seq::empty(),
        status: None,
        footer: None,
        error: None,
        placement,
    }
}

/// A centered prompt with one input line.
pub open spec fn entry_prompt(
    owner: Seq<char>,
    id: Seq<char>,
    title: Seq<char>,
    label: Seq<char>,
    value: Seq<char>,
    footer: Seq<char>,
    error: Option<Seq<char>>,
) -> PromptView {
    PromptView {
        title: Some(title),
        fields: seq![(label, value)],
        footer: Some(footer),
        error,
        ..blank_prompt(owner, id, Placement::Center)
    }
}

impl Prompt {
    /// A prompt with nothing in it.
    pub fn new(owner: &str, prompt_id: &str, placement: Placement) -> (r: Prompt)
        ensures
            r@ == blank_prompt(owner@, prompt_id@, placement),
    {
        let r = Prompt {
            owner: owner.to_owned(),
            prompt_id: prompt_id.to_owned(),
            title: None,
            fields: Vec::new(),
            focused: 0,
            toggles: Vec::new(),
            status: None,
            footer: None,
            error: None,
            placement,
        };
        assert(fields_view(r.fields@) =~= Seq::empty());
        assert(toggles_view(r.toggles@) =~= Seq::empty());
        r
    }

    /// A centered prompt with one input line.
    pub fn entry(
        owner: &str,
        prompt_id: &str,
        title: String,
        label: &str,
        value: String,
        footer: &str,
        error: Option<String>,
    ) -> (r: Prompt)
        ensures
            r@ == entry_prompt(
                owner@,
                prompt_id@,
                title@,
                label@,
                value@,
                footer@,
                opt_text(error),
            ),
    {
        let mut r = Prompt::new(owner, prompt_id, Placement::Center);
        r.title = Some(title);
        r.fields.push(PromptField { label: label.to_owned(), value });
        assert(fields_view(r.fields@) =~= seq![(label@, value@)]);
        r.footer = Some(footer.to_owned());
        r.error = error;
        r
    }
}

/// A row of a picker.
#[derive(Debug, PartialEq)]
pub struct PickerItem {
    pub id: String,
    pub label: String,
}

/// A list to choose from. The token comes back with the choice.
#[derive(Debug, PartialEq)]
pub struct PickerRequest {
    pub owner: String,
    pub token: String,
    pub title: String,
    pub items: Vec<PickerItem>,
    pub commands: Vec<PickerItem>,
    pub start_in_commands: bool,
}

pub struct PickerView {
    pub owner: Seq<char>,
    pub token: Seq<char>,
    pub title: Seq<char>,
    /// Id and label of each row.
    pub items: Seq<(Seq<char>, Seq<char>)>,
    pub commands: Seq<(Seq<char>, Seq<char>)>,
    pub start_in_commands: bool,
}

pub open spec fn items_view(v: Seq<PickerItem>) -> Seq<(Seq<char>, Seq<char>)> {
    v.map_values(|i: PickerItem| (i.id@, i.label@))
}

impl View for PickerRequest {
    type V = PickerView;

    open spec fn view(&self) -> PickerView {
        PickerView {
            owner: self.owner@,
            token: self.token@,
            title: self.title@,
            items: items_view(self.items@),
            commands: items_view(self.commands@),
            start_in_commands: self.start_in_commands,
        }
    }
}

/// A row of a popup.
#[derive(Debug, PartialEq)]
pub struct PopupRow {
    pub kind: String,
    pub label: String,
    pub detail: Option<String>,
}

/// A list at a place in the text.
#[derive(Debug, PartialEq)]
pub struct Popup {
    pub owner: String,
    pub anchor: usize,
    pub rows: Vec<PopupRow>,
    pub selected: usize,
}

pub struct PopupView {
    pub owner: Seq<char>,
    pub anchor: int,
    /// Kind, label and detail of each row.
    pub rows: Seq<(Seq<char>, Seq<char>, Option<Seq<char>>)>,
    pub selected: int,
}

pub open spec fn popup_rows(v: Seq<PopupRow>) -> Seq<(Seq<char>, Seq<char>, Option<Seq<char>>)> {
    v.map_values(|r: PopupRow| (r.kind@, r.label@, opt_text(r.detail)))
}

impl View for Popup {
    type V = PopupView;

    open spec fn view(&self) -> PopupView {
        PopupView {
            owner: self.owner@,
            anchor: self.anchor as int,
            rows: popup_rows(self.rows@),
            selected: self.selected as int,
        }
    }
}

/// A styled range of a document.
#[derive(Debug, PartialEq)]
pub struct Decoration {
    pub start: usize,
    pub end: usize,
    pub style: String,
}

/// A mark beside a line.
#[derive(Debug, PartialEq)]
pub struct GutterMark {
    pub line: usize,
    pub glyph: char,
    pub style: String,
}

/// Text that is shown in a document but is not part of it.
#[derive(Debug, PartialEq)]
pub struct VirtualText {
    pub offset: usize,
    pub text: String,
    pub style: String,
    pub pad_left: bool,
    pub pad_right: bool,
}

/// What is drawn over a document.
#[derive(Debug, PartialEq)]
pub struct DecorationSet {
    pub spans: Vec<Decoration>,
    pub gutter: Vec<GutterMark>,
    pub virtual_text: Vec<VirtualText>,
}

pub struct VirtualView {
    pub offset: int,
    pub text: Seq<char>,
    pub style: Seq<char>,
    pub pad_left: bool,
    pub pad_right: bool,
}

pub struct DecorationView {
    /// Start, end and style of each range.
    pub spans: Seq<(int, int, Seq<char>)>,
    /// Line, glyph and style of each mark.
    pub gutter: Seq<(int, char, Seq<char>)>,
    pub virtual_text: Seq<VirtualView>,
}

pub open spec fn decorations_view(v: Seq<Decoration>) -> Seq<(int, int, Seq<char>)> {
    v.map_values(|d: Decoration| (d.start as int, d.end as int, d.style@))
}

pub open spec fn gutter_view(v: Seq<GutterMark>) -> Seq<(int, char, Seq<char>)> {
    v.map_values(|g: GutterMark| (g.line as int, g.glyph, g.style@))
}

impl View for VirtualText {
    type V = VirtualView;

    open spec fn view(&self) -> VirtualView {
        VirtualView {
            offset: self.offset as int,
            text: self.text@,
            style: self.style@,
            pad_left: self.pad_left,
            pad_right: self.pad_right,
        }
    }
}

pub open spec fn virtual_view(v: Seq<VirtualText>) -> Seq<VirtualView> {
    v.map_values(|t: VirtualText| t@)
}

impl View for DecorationSet {
    type V = DecorationView;

    open spec fn view(&self) -> DecorationView {
        DecorationView {
            spans: decorations_view(self.spans@),
            gutter: gutter_view(self.gutter@),
            virtual_text: virtual_view(self.virtual_text@),
        }
    }
}

/// Ranges alone.
pub open spec fn only_spans(spans: Seq<(int, int, Seq<char>)>) -> DecorationView {
    DecorationView { spans, gutter: Seq::empty(), virtual_text: Seq::empty() }
}

/// Marks alone.
pub open spec fn only_gutter(gutter: Seq<(int, char, Seq<char>)>) -> DecorationView {
    DecorationView { spans: Seq::empty(), gutter, virtual_text: Seq::empty() }
}

/// Shown text alone.
pub open spec fn only_virtual(virtual_text: Seq<VirtualView>) -> DecorationView {
    DecorationView { spans: Seq::empty(), gutter: Seq::empty(), virtual_text }
}

impl DecorationSet {
    /// Ranges alone.
    pub fn spans(spans: Vec<Decoration>) -> (r: DecorationSet)
        ensures
            r@ == only_spans(decorations_view(spans@)),
    {
        let r = DecorationSet { spans, gutter: Vec::new(), virtual_text: Vec::new() };
        assert(gutter_view(r.gutter@) =~= Seq::empty());
        assert(virtual_view(r.virtual_text@) =~= Seq::empty());
        r
    }

    /// Marks alone.
    pub fn gutter(gutter: Vec<GutterMark>) -> (r: DecorationSet)
        ensures
            r@ == only_gutter(gutter_view(gutter@)),
    {
        let r = DecorationSet { spans: Vec::new(), gutter, virtual_text: Vec::new() };
        assert(decorations_view(r.spans@) =~= Seq::empty());
        assert(virtual_view(r.virtual_text@) =~= Seq::empty());
        r
    }

    /// Shown text alone.
    pub fn virtual_text(virtual_text: Vec<VirtualText>) -> (r: DecorationSet)
        ensures
            r@ == only_virtual(virtual_view(virtual_text@)),
    {
        let r = DecorationSet { spans: Vec::new(), gutter: Vec::new(), virtual_text };
        assert(gutter_view(r.gutter@) =~= Seq::empty());
        assert(decorations_view(r.spans@) =~= Seq::empty());
        r
    }
}

} // verus!
